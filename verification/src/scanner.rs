//! The scanner: one forward pass over the source characters with
//! single-character lookahead, producing the token sequence and a lexical
//! error flag.
//!
//! The whole pass is specified by the recursive model `scan_from`; the
//! imperative loop is proved to produce exactly the model's tokens and
//! error flag.

use vstd::prelude::*;

use crate::location::{Location, LocationModel};
use crate::numbers::Number;
use crate::tokens::{Token, TokenModel, TokenType, TokenTypeModel};

verus! {

use vstd::string::StrSliceExecFns;
use vstd::string::StringExecFns;

/// Letters, digits and underscore may continue an identifier.
pub open spec fn is_ident_char(c: char) -> bool {
    ('a' <= c && c <= 'z') || ('A' <= c && c <= 'Z') || ('0' <= c && c <= '9') || c == '_'
}

/// Digits and the decimal point may continue a number.
pub open spec fn is_number_char(c: char) -> bool {
    ('0' <= c && c <= '9') || c == '.'
}

/// A decimal digit.
pub open spec fn is_digit(c: char) -> bool {
    '0' <= c && c <= '9'
}

/// A letter or underscore, which may start an identifier.
pub open spec fn is_ident_start(c: char) -> bool {
    ('a' <= c && c <= 'z') || ('A' <= c && c <= 'Z') || c == '_'
}

/// Whether a character continues an identifier.
pub fn is_valid_for_identifier(c: char) -> (r: bool)
    ensures
        r == is_ident_char(c),
{
    ('a' <= c && c <= 'z') || ('A' <= c && c <= 'Z') || ('0' <= c && c <= '9') || c == '_'
}

/// Whether a character continues a number literal.
pub fn is_valid_for_number(c: char) -> (r: bool)
    ensures
        r == is_number_char(c),
{
    ('0' <= c && c <= '9') || c == '.'
}

/// The numeric value of a digit character.
pub open spec fn digit_of(c: char) -> nat
    recommends
        is_digit(c),
{
    ((c as int) - ('0' as int)) as nat
}

/// The value of a digit string read in base ten.
pub open spec fn digits_val(s: Seq<char>) -> nat
    decreases s.len(),
{
    if s.len() == 0 {
        0
    } else {
        digits_val(s.drop_last()) * 10 + digit_of(s.last())
    }
}

/// Ten to the `k`.
pub open spec fn pow10(k: nat) -> nat
    decreases k,
{
    if k == 0 {
        1
    } else {
        10 * pow10((k - 1) as nat)
    }
}

/// End of the run of number characters starting at `i`.
pub open spec fn number_end(s: Seq<char>, i: nat) -> nat
    decreases s.len() - i,
    when i <= s.len()
{
    if i < s.len() && is_number_char(s[i as int]) {
        number_end(s, i + 1)
    } else {
        i
    }
}

/// End of the run of identifier characters starting at `i`.
pub open spec fn ident_end(s: Seq<char>, i: nat) -> nat
    decreases s.len() - i,
    when i <= s.len()
{
    if i < s.len() && is_ident_char(s[i as int]) {
        ident_end(s, i + 1)
    } else {
        i
    }
}

/// First newline at or after `i`, or the end of the source.
pub open spec fn comment_end(s: Seq<char>, i: nat) -> nat
    decreases s.len() - i,
    when i <= s.len()
{
    if i < s.len() && s[i as int] != '\n' {
        comment_end(s, i + 1)
    } else {
        i
    }
}

/// First closing quote or newline at or after `i`, or the end of the source.
pub open spec fn string_end(s: Seq<char>, i: nat) -> nat
    decreases s.len() - i,
    when i <= s.len()
{
    if i < s.len() && s[i as int] != '"' && s[i as int] != '\n' {
        string_end(s, i + 1)
    } else {
        i
    }
}

/// The raw fixed-point value of a number lexeme: the digits before the
/// first decimal point, then up to six fraction digits (further fraction
/// digits are dropped). A second decimal point, or a value above the
/// representable range, is malformed.
pub open spec fn number_value(s: Seq<char>) -> Option<int> {
    number_value_at(s, first_dot(s, 0))
}

/// First index of a decimal point at or after `i`, or the length.
pub open spec fn first_dot(s: Seq<char>, i: nat) -> nat
    decreases s.len() - i,
    when i <= s.len()
{
    if i < s.len() && s[i as int] != '.' {
        first_dot(s, i + 1)
    } else {
        i
    }
}

/// The fraction digits of a lexeme split at dot index `d`.
pub open spec fn frac_part(s: Seq<char>, d: nat) -> Seq<char> {
    if d < s.len() {
        s.subrange(d as int + 1, s.len() as int)
    } else {
        Seq::<char>::empty()
    }
}

/// How many fraction digits are kept: at most six.
pub open spec fn frac_keep(s: Seq<char>, d: nat) -> nat {
    if frac_part(s, d).len() < 6 {
        frac_part(s, d).len()
    } else {
        6
    }
}

/// `number_value`, split at the given first-dot index.
pub open spec fn number_value_at(s: Seq<char>, d: nat) -> Option<int> {
    let ip = s.take(d as int);
    let fp = frac_part(s, d);
    if exists|k: int| 0 <= k < fp.len() && fp[k] == '.' {
        None
    } else {
        let keep = frac_keep(s, d);
        let total = digits_val(ip) * 1_000_000 + digits_val(fp.take(keep as int)) * pow10(
            (6 - keep) as nat,
        );
        if total > i64::MAX {
            None
        } else {
            Some(total as int)
        }
    }
}

/// The token category of one-character punctuation.
pub open spec fn punct_kind(c: char) -> Option<TokenTypeModel> {
    if c == '(' {
        Some(TokenTypeModel::LeftParen)
    } else if c == ')' {
        Some(TokenTypeModel::RightParen)
    } else if c == '{' {
        Some(TokenTypeModel::LeftBrace)
    } else if c == '}' {
        Some(TokenTypeModel::RightBrace)
    } else if c == ',' {
        Some(TokenTypeModel::Comma)
    } else if c == '.' {
        Some(TokenTypeModel::Dot)
    } else if c == '-' {
        Some(TokenTypeModel::Minus)
    } else if c == '+' {
        Some(TokenTypeModel::Plus)
    } else if c == ';' {
        Some(TokenTypeModel::SemiColon)
    } else if c == '*' {
        Some(TokenTypeModel::Star)
    } else {
        None
    }
}

/// The pair of categories for a character that may pair with `=`: the
/// two-character kind first, the bare kind second.
pub open spec fn two_char_kind(c: char) -> Option<(TokenTypeModel, TokenTypeModel)> {
    if c == '!' {
        Some((TokenTypeModel::BangEqual, TokenTypeModel::Bang))
    } else if c == '=' {
        Some((TokenTypeModel::EqualEqual, TokenTypeModel::Equal))
    } else if c == '<' {
        Some((TokenTypeModel::LessEqual, TokenTypeModel::Less))
    } else if c == '>' {
        Some((TokenTypeModel::GreaterEqual, TokenTypeModel::Greater))
    } else {
        None
    }
}

/// The category an identifier lexeme denotes: a reserved word where it
/// matches the fixed table, else an identifier.
pub open spec fn keyword_kind(s: Seq<char>) -> TokenTypeModel {
    if s == "and"@ {
        TokenTypeModel::And
    } else if s == "class"@ {
        TokenTypeModel::Class
    } else if s == "else"@ {
        TokenTypeModel::Else
    } else if s == "false"@ {
        TokenTypeModel::False
    } else if s == "fun"@ {
        TokenTypeModel::Fun
    } else if s == "for"@ {
        TokenTypeModel::For
    } else if s == "if"@ {
        TokenTypeModel::If
    } else if s == "nil"@ {
        TokenTypeModel::Nil
    } else if s == "or"@ {
        TokenTypeModel::Or
    } else if s == "print"@ {
        TokenTypeModel::Print
    } else if s == "return"@ {
        TokenTypeModel::Return
    } else if s == "super"@ {
        TokenTypeModel::Super
    } else if s == "this"@ {
        TokenTypeModel::This
    } else if s == "true"@ {
        TokenTypeModel::True
    } else if s == "var"@ {
        TokenTypeModel::Var
    } else if s == "while"@ {
        TokenTypeModel::While
    } else {
        TokenTypeModel::Identifier(s)
    }
}

/// A token model on the given line.
pub open spec fn tok_at(k: TokenTypeModel, fname: Seq<char>, line: nat) -> TokenModel {
    TokenModel { token_type: k, location: LocationModel::Line(fname, line) }
}

/// What a scan produces: the tokens and whether a lexical error was seen.
pub struct ScanModel {
    pub tokens: Seq<TokenModel>,
    pub had_error: bool,
}

/// Prepend one token to a scan result.
pub open spec fn scan_cons(t: TokenModel, m: ScanModel) -> ScanModel {
    ScanModel { tokens: seq![t] + m.tokens, had_error: m.had_error }
}

/// Mark a scan result as having seen a lexical error.
pub open spec fn scan_err(m: ScanModel) -> ScanModel {
    ScanModel { tokens: m.tokens, had_error: true }
}

/// The scanner's functional model, from position `i` on line `line`:
/// skip whitespace, count lines, map punctuation to tokens, take `=` pairs
/// greedily, drop comments, read number, string and identifier runs, flag
/// anything unexpected, and close with an end-of-file token.
pub open spec fn scan_from(src: Seq<char>, fname: Seq<char>, i: nat, line: nat) -> ScanModel
    decreases src.len() - i,
    when i <= src.len()
    via scan_from_dec
{
    if i >= src.len() {
        ScanModel { tokens: seq![tok_at(TokenTypeModel::Eof, fname, line)], had_error: false }
    } else {
        let c = src[i as int];
        if c == ' ' || c == '\t' || c == '\r' {
            scan_from(src, fname, i + 1, line)
        } else if c == '\n' {
            scan_from(src, fname, i + 1, line + 1)
        } else if punct_kind(c) is Some {
            scan_cons(
                tok_at(punct_kind(c)->Some_0, fname, line),
                scan_from(src, fname, i + 1, line),
            )
        } else if c == '/' {
            if i + 1 < src.len() && src[i as int + 1] == '/' {
                scan_from(src, fname, comment_end(src, i + 2), line)
            } else {
                scan_cons(
                    tok_at(TokenTypeModel::Slash, fname, line),
                    scan_from(src, fname, i + 1, line),
                )
            }
        } else if two_char_kind(c) is Some {
            let pair = two_char_kind(c)->Some_0;
            if i + 1 < src.len() && src[i as int + 1] == '=' {
                scan_cons(tok_at(pair.0, fname, line), scan_from(src, fname, i + 2, line))
            } else {
                scan_cons(tok_at(pair.1, fname, line), scan_from(src, fname, i + 1, line))
            }
        } else if is_digit(c) {
            let j = number_end(src, i);
            match number_value(src.subrange(i as int, j as int)) {
                Some(raw) => scan_cons(
                    tok_at(TokenTypeModel::Number(raw), fname, line),
                    scan_from(src, fname, j, line),
                ),
                None => scan_err(scan_from(src, fname, j, line)),
            }
        } else if c == '"' {
            let j = string_end(src, i + 1);
            if j < src.len() && src[j as int] == '"' {
                scan_cons(
                    tok_at(
                        TokenTypeModel::String(src.subrange(i as int + 1, j as int)),
                        fname,
                        line,
                    ),
                    scan_from(src, fname, j + 1, line),
                )
            } else if j < src.len() {
                scan_err(scan_from(src, fname, j + 1, line + 1))
            } else {
                scan_err(scan_from(src, fname, j, line))
            }
        } else if is_ident_start(c) {
            let j = ident_end(src, i);
            scan_cons(
                tok_at(keyword_kind(src.subrange(i as int, j as int)), fname, line),
                scan_from(src, fname, j, line),
            )
        } else {
            scan_err(scan_from(src, fname, i + 1, line))
        }
    }
}

#[via_fn]
proof fn scan_from_dec(src: Seq<char>, fname: Seq<char>, i: nat, line: nat) {
    if i < src.len() {
        if is_digit(src[i as int]) {
            lemma_number_end_bounds(src, i + 1);
            assert(number_end(src, i) == number_end(src, i + 1));
        }
        if is_ident_start(src[i as int]) {
            lemma_ident_end_bounds(src, i + 1);
            assert(ident_end(src, i) == ident_end(src, i + 1));
        }
        if i + 2 <= src.len() {
            lemma_comment_end_bounds(src, i + 2);
        }
        lemma_string_end_bounds(src, i + 1);
    }
}

proof fn lemma_number_end_bounds(s: Seq<char>, i: nat)
    requires
        i <= s.len(),
    ensures
        i <= number_end(s, i) <= s.len(),
    decreases s.len() - i,
{
    if i < s.len() && is_number_char(s[i as int]) {
        lemma_number_end_bounds(s, i + 1);
    }
}

proof fn lemma_ident_end_bounds(s: Seq<char>, i: nat)
    requires
        i <= s.len(),
    ensures
        i <= ident_end(s, i) <= s.len(),
    decreases s.len() - i,
{
    if i < s.len() && is_ident_char(s[i as int]) {
        lemma_ident_end_bounds(s, i + 1);
    }
}

proof fn lemma_comment_end_bounds(s: Seq<char>, i: nat)
    requires
        i <= s.len(),
    ensures
        i <= comment_end(s, i) <= s.len(),
    decreases s.len() - i,
{
    if i < s.len() && s[i as int] != '\n' {
        lemma_comment_end_bounds(s, i + 1);
    }
}

proof fn lemma_string_end_bounds(s: Seq<char>, i: nat)
    requires
        i <= s.len(),
    ensures
        i <= string_end(s, i) <= s.len(),
    decreases s.len() - i,
{
    if i < s.len() && s[i as int] != '"' && s[i as int] != '\n' {
        lemma_string_end_bounds(s, i + 1);
    }
}


proof fn lemma_first_dot_at(s: Seq<char>, i: nat, j: nat)
    requires
        i <= j <= s.len(),
        forall|k: int| i <= k < j ==> s[k] != '.',
        j == s.len() || s[j as int] == '.',
    ensures
        first_dot(s, i) == j,
    decreases j - i,
{
    if i < j {
        lemma_first_dot_at(s, i + 1, j);
    }
}

proof fn lemma_number_end_at(s: Seq<char>, i: nat, j: nat)
    requires
        i <= j <= s.len(),
        forall|k: int| i <= k < j ==> is_number_char(#[trigger] s[k]),
        j == s.len() || !is_number_char(s[j as int]),
    ensures
        number_end(s, i) == j,
    decreases j - i,
{
    if i < j {
        lemma_number_end_at(s, i + 1, j);
    }
}

proof fn lemma_ident_end_at(s: Seq<char>, i: nat, j: nat)
    requires
        i <= j <= s.len(),
        forall|k: int| i <= k < j ==> is_ident_char(#[trigger] s[k]),
        j == s.len() || !is_ident_char(s[j as int]),
    ensures
        ident_end(s, i) == j,
    decreases j - i,
{
    if i < j {
        lemma_ident_end_at(s, i + 1, j);
    }
}

proof fn lemma_comment_end_at(s: Seq<char>, i: nat, j: nat)
    requires
        i <= j <= s.len(),
        forall|k: int| i <= k < j ==> s[k] != '\n',
        j == s.len() || s[j as int] == '\n',
    ensures
        comment_end(s, i) == j,
    decreases j - i,
{
    if i < j {
        lemma_comment_end_at(s, i + 1, j);
    }
}

proof fn lemma_string_end_at(s: Seq<char>, i: nat, j: nat)
    requires
        i <= j <= s.len(),
        forall|k: int| i <= k < j ==> s[k] != '"' && s[k] != '\n',
        j == s.len() || s[j as int] == '"' || s[j as int] == '\n',
    ensures
        string_end(s, i) == j,
    decreases j - i,
{
    if i < j {
        lemma_string_end_at(s, i + 1, j);
    }
}

proof fn lemma_digits_val_bound(s: Seq<char>)
    requires
        forall|k: int| 0 <= k < s.len() ==> is_digit(#[trigger] s[k]),
    ensures
        digits_val(s) < pow10(s.len()),
    decreases s.len(),
{
    if s.len() > 0 {
        lemma_digits_val_bound(s.drop_last());
        assert(digit_of(s.last()) <= 9);
        assert(digits_val(s.drop_last()) * 10 <= (pow10((s.len() - 1) as nat) - 1) * 10)
            by (nonlinear_arith)
            requires
                digits_val(s.drop_last()) <= pow10((s.len() - 1) as nat) - 1,
        ;
    }
}

/// Parse a run of number characters as a raw fixed-point count.
fn parse_number(lex: &Vec<char>) -> (r: Option<i64>)
    requires
        forall|k: int| 0 <= k < lex@.len() ==> is_number_char(#[trigger] lex@[k]),
    ensures
        match r {
            Some(v) => number_value(lex@) == Some(v as int),
            None => number_value(lex@) is None,
        },
{
    let n = lex.len();
    let mut d: usize = 0;
    while d < n && lex[d] != '.'
        invariant
            d <= n,
            n == lex@.len(),
            forall|k: int| 0 <= k < d ==> lex@[k] != '.',
            forall|k: int| 0 <= k < lex@.len() ==> is_number_char(#[trigger] lex@[k]),
        decreases n - d,
    {
        d += 1;
    }
    proof {
        lemma_first_dot_at(lex@, 0, d as nat);
    }
    let ghost ip = lex@.take(d as int);
    let ghost fp = frac_part(lex@, d as nat);
    // a second decimal point is malformed
    if d < n {
        let mut k: usize = d + 1;
        while k < n
            invariant
                d < n,
                n == lex@.len(),
                d + 1 <= k <= n,
                first_dot(lex@, 0) == d as nat,
                fp == frac_part(lex@, d as nat),
                fp == lex@.subrange(d as int + 1, lex@.len() as int),
                forall|k2: int| d + 1 <= k2 < k ==> lex@[k2] != '.',
            decreases n - k,
        {
            if lex[k] == '.' {
                proof {
                    let idx = k - (d + 1);
                    let fps = frac_part(lex@, d as nat);
                    assert(fps[idx] == '.');
                    assert(exists|k2: int| 0 <= k2 < fps.len() && fps[k2] == '.') by {
                        assert(0 <= idx < fps.len() && fps[idx] == '.');
                    }
                    assert(number_value_at(lex@, d as nat) is None);
                }
                return None;
            }
            k += 1;
        }
        proof {
            assert forall|k2: int| 0 <= k2 < fp.len() implies fp[k2] != '.' by {
                assert(fp[k2] == lex@[d + 1 + k2]);
            }
        }
    }
    proof {
        assert(forall|k2: int| 0 <= k2 < fp.len() ==> #[trigger] fp[k2] != '.');
        assert forall|k2: int| 0 <= k2 < ip.len() implies is_digit(#[trigger] ip[k2]) by {
            assert(ip[k2] == lex@[k2]);
        }
        assert forall|k2: int| 0 <= k2 < fp.len() implies is_digit(#[trigger] fp[k2]) by {
            assert(fp[k2] == lex@[d + 1 + k2]);
            assert(is_number_char(fp[k2]));
        }
    }
    // whole part, capped at the largest representable raw count
    let mut whole: u128 = 0;
    let mut over = false;
    let mut i: usize = 0;
    while i < d
        invariant
            i <= d <= n,
            n == lex@.len(),
            ip == lex@.take(d as int),
            forall|k: int| 0 <= k < d ==> lex@[k] != '.',
            forall|k: int| 0 <= k < lex@.len() ==> is_number_char(#[trigger] lex@[k]),
            !over ==> whole == digits_val(lex@.take(i as int)) && whole <= i64::MAX as u128,
            over ==> digits_val(lex@.take(i as int)) > i64::MAX as u128,
        decreases d - i,
    {
        let c = lex[i];
        proof {
            assert(lex@.take(i as int + 1).drop_last() =~= lex@.take(i as int));
            assert(lex@.take(i as int + 1).last() == lex@[i as int]);
        }
        let dv: u128 = (c as u32 - 48) as u128;
        if !over {
            whole = whole * 10 + dv;
            if whole > i64::MAX as u128 {
                over = true;
            }
        } else {
            proof {
                let prev = digits_val(lex@.take(i as int));
                assert(prev * 10 >= prev) by (nonlinear_arith)
                    requires
                        prev >= 0,
                ;
            }
        }
        i += 1;
    }
    proof {
        assert(lex@.take(d as int) =~= ip);
    }
    // fraction: up to six digits kept, the rest dropped
    let flen: usize = if d < n {
        n - d - 1
    } else {
        0
    };
    let keep: usize = if flen < 6 {
        flen
    } else {
        6
    };
    let mut fv: u128 = 0;
    let mut t: usize = 0;
    proof {
        lemma_digits_val_bound(fp.take(keep as int));
    }
    while t < keep
        invariant
            t <= keep,
            keep <= 6,
            keep <= fp.len(),
            d < n || keep == 0,
            n == lex@.len(),
            fp == frac_part(lex@, d as nat),
            forall|k2: int| 0 <= k2 < fp.len() ==> is_digit(#[trigger] fp[k2]),
            fv == digits_val(fp.take(t as int)),
            fv <= 999_999,
        decreases keep - t,
    {
        let c = lex[d + 1 + t];
        proof {
            assert(fp[t as int] == lex@[d + 1 + t]);
            assert(fp.take(t as int + 1).drop_last() =~= fp.take(t as int));
            assert(fp.take(t as int + 1).last() == fp[t as int]);
            lemma_digits_val_bound(fp.take(t as int + 1));
            reveal_with_fuel(pow10, 8);
        }
        let dv: u128 = (c as u32 - 48) as u128;
        fv = fv * 10 + dv;
        t += 1;
    }
    let scale: u128 = if keep == 0 {
        1_000_000
    } else if keep == 1 {
        100_000
    } else if keep == 2 {
        10_000
    } else if keep == 3 {
        1_000
    } else if keep == 4 {
        100
    } else if keep == 5 {
        10
    } else {
        1
    };
    proof {
        reveal_with_fuel(pow10, 8);
        assert(scale as int == pow10((6 - keep) as nat));
    }
    if over {
        proof {
            let w = digits_val(ip);
            assert(w * 1_000_000 >= w) by (nonlinear_arith)
                requires
                    w >= 0,
            ;
        }
        return None;
    }
    proof {
        assert(whole * 1_000_000 <= 0x7fff_ffff_ffff_ffff * 1_000_000) by (nonlinear_arith)
            requires
                0 <= whole <= 0x7fff_ffff_ffff_ffff,
        ;
        assert(fv * scale <= 999_999 * 1_000_000) by (nonlinear_arith)
            requires
                0 <= fv <= 999_999,
                0 <= scale <= 1_000_000,
        ;
    }
    let total: u128 = whole * 1_000_000 + fv * scale;
    if total > i64::MAX as u128 {
        None
    } else {
        Some(total as i64)
    }
}

/// Map an identifier lexeme to its keyword category, or to an identifier
/// token carrying the lexeme.
pub fn identifier_or_keyword_to_tokentype(identifier: &str) -> (r: TokenType)
    ensures
        r.model() == keyword_kind(identifier@),
{
    let s = String::from_str(identifier);
    if s == String::from_str("and") {
        TokenType::And
    } else if s == String::from_str("class") {
        TokenType::Class
    } else if s == String::from_str("else") {
        TokenType::Else
    } else if s == String::from_str("false") {
        TokenType::False
    } else if s == String::from_str("fun") {
        TokenType::Fun
    } else if s == String::from_str("for") {
        TokenType::For
    } else if s == String::from_str("if") {
        TokenType::If
    } else if s == String::from_str("nil") {
        TokenType::Nil
    } else if s == String::from_str("or") {
        TokenType::Or
    } else if s == String::from_str("print") {
        TokenType::Print
    } else if s == String::from_str("return") {
        TokenType::Return
    } else if s == String::from_str("super") {
        TokenType::Super
    } else if s == String::from_str("this") {
        TokenType::This
    } else if s == String::from_str("true") {
        TokenType::True
    } else if s == String::from_str("var") {
        TokenType::Var
    } else if s == String::from_str("while") {
        TokenType::While
    } else {
        TokenType::Identifier(s)
    }
}

/// The characters of a string slice, in order.
fn chars_of(s: &str) -> (v: Vec<char>)
    ensures
        v@ == s@,
{
    let n = s.unicode_len();
    let mut v: Vec<char> = Vec::new();
    let mut i: usize = 0;
    while i < n
        invariant
            i <= n,
            n == s@.len(),
            v@ =~= s@.take(i as int),
        decreases n - i,
    {
        v.push(s.get_char(i));
        proof {
            assert(v@ =~= s@.take(i as int + 1));
        }
        i += 1;
    }
    proof {
        assert(s@.take(n as int) =~= s@);
    }
    v
}


/// The scanning state: the source text, the characters still to consume,
/// the current line, and whether a lexical error has been seen.
pub struct SourceCode {
    pub source: String,
    pub line: usize,
    pub filename: String,
    pub had_error: bool,
    pub chars: Vec<char>,
    pub pos: usize,
}

impl SourceCode {
    /// The character buffer mirrors the source text, the cursor is in
    /// bounds, and the line counter cannot overflow on the input left.
    pub open spec fn wf(self) -> bool {
        &&& self.chars@ == self.source@
        &&& self.pos <= self.chars@.len()
        &&& self.line as nat + (self.chars@.len() - self.pos) <= usize::MAX as nat
    }

    /// The scan position, as an index into the source characters.
    pub open spec fn cursor(self) -> nat {
        self.pos as nat
    }

    /// A scanner at the start of the given source, on line one.
    pub fn new(source: &str, filename: String) -> (r: SourceCode)
        requires
            source@.len() < usize::MAX,
        ensures
            r.wf(),
            r.source@ == source@,
            r.filename == filename,
            r.line == 1,
            r.cursor() == 0,
            !r.had_error,
    {
        let chars = chars_of(source);
        SourceCode {
            source: String::from_str(source),
            line: 1,
            filename,
            had_error: false,
            chars,
            pos: 0,
        }
    }

    /// The location of the current line.
    pub fn loc(&self) -> (r: Location)
        ensures
            r == Location::Line(self.filename, self.line),
    {
        Location::Line(self.filename.clone(), self.line)
    }

    /// Peek at the character under the cursor: where it matches, consume it
    /// and append the two-character token, else append the one-character
    /// token. The location is the current line either way.
    pub fn peek_match_and_add(
        &mut self,
        match_char: char,
        match_token_type: TokenType,
        not_match_token_type: TokenType,
        tokens: &mut Vec<Token>,
    )
        requires
            old(self).wf(),
        ensures
            final(self).wf(),
            final(self).source == old(self).source,
            final(self).filename == old(self).filename,
            final(self).line == old(self).line,
            final(self).had_error == old(self).had_error,
            if old(self).cursor() < old(self).source@.len() && old(self).source@[old(
                self,
            ).cursor() as int] == match_char {
                &&& final(self).cursor() == old(self).cursor() + 1
                &&& final(tokens)@ == old(tokens)@.push(
                    Token {
                        token_type: match_token_type,
                        location: Location::Line(old(self).filename, old(self).line),
                    },
                )
            } else {
                &&& final(self).cursor() == old(self).cursor()
                &&& final(tokens)@ == old(tokens)@.push(
                    Token {
                        token_type: not_match_token_type,
                        location: Location::Line(old(self).filename, old(self).line),
                    },
                )
            },
    {
        if self.pos < self.chars.len() && self.chars[self.pos] == match_char {
            tokens.push(Token::new(match_token_type, self.loc()));
            self.pos = self.pos + 1;
        } else {
            tokens.push(Token::new(not_match_token_type, self.loc()));
        }
    }

    /// Scan the whole source: exactly the tokens and error flag of the
    /// functional model `scan_from`, starting at the current cursor and
    /// line.
    pub fn scan_tokens(&mut self) -> (tokens: Vec<Token>)
        requires
            old(self).wf(),
        ensures
            final(self).wf(),
            ({
                let m = scan_from(
                    old(self).source@,
                    old(self).filename@,
                    old(self).cursor(),
                    old(self).line as nat,
                );
                &&& tokens@.map_values(|t: Token| t.model()) =~= m.tokens
                &&& final(self).had_error == (old(self).had_error || m.had_error)
            }),
    {
        let ghost src = self.source@;
        let ghost fname = self.filename@;
        let ghost m = scan_from(src, fname, self.pos as nat, self.line as nat);
        let mut tokens: Vec<Token> = Vec::new();
        while self.pos < self.chars.len()
            invariant
                self.wf(),
                src == self.source@,
                fname == self.filename@,
                self.filename == old(self).filename,
                m == scan_from(src, fname, old(self).cursor(), old(self).line as nat),
                m.tokens =~= tokens@.map_values(|t: Token| t.model()) + scan_from(
                    src,
                    fname,
                    self.pos as nat,
                    self.line as nat,
                ).tokens,
                (old(self).had_error || m.had_error) == (self.had_error || scan_from(
                    src,
                    fname,
                    self.pos as nat,
                    self.line as nat,
                ).had_error),
            decreases self.chars@.len() - self.pos,
        {
            let ghost p = self.pos as nat;
            let ghost l = self.line as nat;
            let ghost cur = scan_from(src, fname, p, l);
            let ghost toks0 = tokens@;
            let c = self.chars[self.pos];
            if c == ' ' || c == '\t' || c == '\r' {
                self.pos = self.pos + 1;
            } else if c == '\n' {
                self.line = self.line + 1;
                self.pos = self.pos + 1;
            } else {
                let location = self.loc();
                match punct_token_type(c) {
                    Some(tt) => {
                        let ghost ttm = tt.model();
                        tokens.push(Token::new(tt, location));
                        self.pos = self.pos + 1;
                        proof {
                            assert(cur == scan_cons(
                                tok_at(ttm, fname, l),
                                scan_from(src, fname, p + 1, l),
                            ));
                            assert(tokens@.map_values(|t: Token| t.model()) =~= toks0.map_values(
                                |t: Token| t.model(),
                            ).push(tok_at(ttm, fname, l)));
                        }
                    },
                    None => {
                        if c == '/' {
                            if self.pos + 1 < self.chars.len() && self.chars[self.pos + 1] == '/' {
                                let n = self.chars.len();
                                let mut j = self.pos + 2;
                                while j < n && self.chars[j] != '\n'
                                    invariant
                                        self.wf(),
                                        src == self.source@,
                                        n == self.chars@.len(),
                                        p + 2 <= j <= n,
                                        forall|k: int| p + 2 <= k < j ==> src[k] != '\n',
                                    decreases n - j,
                                {
                                    j += 1;
                                }
                                proof {
                                    lemma_comment_end_at(src, p + 2, j as nat);
                                }
                                self.pos = j;
                            } else {
                                tokens.push(Token::new(TokenType::Slash, location));
                                self.pos = self.pos + 1;
                                proof {
                                    assert(tokens@.map_values(|t: Token| t.model())
                                        =~= toks0.map_values(|t: Token| t.model()).push(
                                        tok_at(TokenTypeModel::Slash, fname, l),
                                    ));
                                }
                            }
                        } else if c == '!' {
                            self.pos = self.pos + 1;
                            self.peek_match_and_add(
                                '=',
                                TokenType::BangEqual,
                                TokenType::Bang,
                                &mut tokens,
                            );
                            proof {
                                assert(tokens@.map_values(|t: Token| t.model())
                                    =~= toks0.map_values(|t: Token| t.model()).push(
                                    tokens@.last().model(),
                                ));
                            }
                        } else if c == '=' {
                            self.pos = self.pos + 1;
                            self.peek_match_and_add(
                                '=',
                                TokenType::EqualEqual,
                                TokenType::Equal,
                                &mut tokens,
                            );
                            proof {
                                assert(tokens@.map_values(|t: Token| t.model())
                                    =~= toks0.map_values(|t: Token| t.model()).push(
                                    tokens@.last().model(),
                                ));
                            }
                        } else if c == '<' {
                            self.pos = self.pos + 1;
                            self.peek_match_and_add(
                                '=',
                                TokenType::LessEqual,
                                TokenType::Less,
                                &mut tokens,
                            );
                            proof {
                                assert(tokens@.map_values(|t: Token| t.model())
                                    =~= toks0.map_values(|t: Token| t.model()).push(
                                    tokens@.last().model(),
                                ));
                            }
                        } else if c == '>' {
                            self.pos = self.pos + 1;
                            self.peek_match_and_add(
                                '=',
                                TokenType::GreaterEqual,
                                TokenType::Greater,
                                &mut tokens,
                            );
                            proof {
                                assert(tokens@.map_values(|t: Token| t.model())
                                    =~= toks0.map_values(|t: Token| t.model()).push(
                                    tokens@.last().model(),
                                ));
                            }
                        } else if '0' <= c && c <= '9' {
                            let n = self.chars.len();
                            let mut j = self.pos;
                            while j < n && is_valid_for_number(self.chars[j])
                                invariant
                                    self.wf(),
                                    src == self.source@,
                                    n == self.chars@.len(),
                                    p <= j <= n,
                                    forall|k: int|
                                        p <= k < j ==> is_number_char(#[trigger] src[k]),
                                decreases n - j,
                            {
                                j += 1;
                            }
                            proof {
                                lemma_number_end_at(src, p, j as nat);
                            }
                            let mut lex: Vec<char> = Vec::new();
                            let mut t = self.pos;
                            while t < j
                                invariant
                                    self.wf(),
                                    src == self.source@,
                                    p <= t <= j,
                                    j <= self.chars@.len(),
                                    forall|k: int|
                                        p <= k < j ==> is_number_char(#[trigger] src[k]),
                                    lex@ =~= src.subrange(p as int, t as int),
                                decreases j - t,
                            {
                                lex.push(self.chars[t]);
                                proof {
                                    assert(lex@ =~= src.subrange(p as int, t + 1));
                                }
                                t += 1;
                            }
                            match parse_number(&lex) {
                                Some(raw) => {
                                    tokens.push(
                                        Token::new(
                                            TokenType::Number(Number::from_raw(raw)),
                                            location,
                                        ),
                                    );
                                    self.pos = j;
                                    proof {
                                        assert(tokens@.map_values(|t2: Token| t2.model())
                                            =~= toks0.map_values(|t2: Token| t2.model()).push(
                                            tok_at(TokenTypeModel::Number(raw as int), fname, l),
                                        ));
                                    }
                                },
                                None => {
                                    self.had_error = true;
                                    self.pos = j;
                                },
                            }
                        } else if c == '"' {
                            let n = self.chars.len();
                            let mut j = self.pos + 1;
                            while j < n && self.chars[j] != '"' && self.chars[j] != '\n'
                                invariant
                                    self.wf(),
                                    src == self.source@,
                                    n == self.chars@.len(),
                                    p + 1 <= j <= n,
                                    forall|k: int|
                                        p + 1 <= k < j ==> src[k] != '"' && src[k] != '\n',
                                decreases n - j,
                            {
                                j += 1;
                            }
                            proof {
                                lemma_string_end_at(src, p + 1, j as nat);
                            }
                            if j < n && self.chars[j] == '"' {
                                let text = self.source.as_str().substring_char(self.pos + 1, j);
                                tokens.push(
                                    Token::new(TokenType::String(String::from_str(text)), location),
                                );
                                self.pos = j + 1;
                                proof {
                                    assert(tokens@.map_values(|t2: Token| t2.model())
                                        =~= toks0.map_values(|t2: Token| t2.model()).push(
                                        tok_at(
                                            TokenTypeModel::String(
                                                src.subrange(p as int + 1, j as int),
                                            ),
                                            fname,
                                            l,
                                        ),
                                    ));
                                }
                            } else if j < n {
                                self.had_error = true;
                                self.line = self.line + 1;
                                self.pos = j + 1;
                            } else {
                                self.had_error = true;
                                self.pos = j;
                            }
                        } else if ('a' <= c && c <= 'z') || ('A' <= c && c <= 'Z') || c == '_' {
                            let n = self.chars.len();
                            let mut j = self.pos;
                            while j < n && is_valid_for_identifier(self.chars[j])
                                invariant
                                    self.wf(),
                                    src == self.source@,
                                    n == self.chars@.len(),
                                    p <= j <= n,
                                    forall|k: int| p <= k < j ==> is_ident_char(#[trigger] src[k]),
                                decreases n - j,
                            {
                                j += 1;
                            }
                            proof {
                                lemma_ident_end_at(src, p, j as nat);
                            }
                            let lexeme = self.source.as_str().substring_char(self.pos, j);
                            let tt = identifier_or_keyword_to_tokentype(lexeme);
                            tokens.push(Token::new(tt, location));
                            self.pos = j;
                            proof {
                                assert(tokens@.map_values(|t2: Token| t2.model())
                                    =~= toks0.map_values(|t2: Token| t2.model()).push(
                                    tok_at(keyword_kind(src.subrange(p as int, j as int)), fname, l),
                                ));
                            }
                        } else {
                            self.had_error = true;
                            self.pos = self.pos + 1;
                        }
                    },
                }
            }
        }
        let location = self.loc();
        tokens.push(Token::new(TokenType::Eof, location));
        proof {
            assert(scan_from(src, fname, self.pos as nat, self.line as nat).tokens =~= seq![
                tok_at(TokenTypeModel::Eof, fname, self.line as nat),
            ]);
            assert(tokens@.map_values(|t: Token| t.model()) =~= m.tokens);
        }
        tokens
    }
}

/// The token for one-character punctuation, matching `punct_kind`.
fn punct_token_type(c: char) -> (r: Option<TokenType>)
    ensures
        match r {
            Some(t) => punct_kind(c) == Some(t.model()),
            None => punct_kind(c) is None,
        },
{
    if c == '(' {
        Some(TokenType::LeftParen)
    } else if c == ')' {
        Some(TokenType::RightParen)
    } else if c == '{' {
        Some(TokenType::LeftBrace)
    } else if c == '}' {
        Some(TokenType::RightBrace)
    } else if c == ',' {
        Some(TokenType::Comma)
    } else if c == '.' {
        Some(TokenType::Dot)
    } else if c == '-' {
        Some(TokenType::Minus)
    } else if c == '+' {
        Some(TokenType::Plus)
    } else if c == ';' {
        Some(TokenType::SemiColon)
    } else if c == '*' {
        Some(TokenType::Star)
    } else {
        None
    }
}


/// One token per punctuation character, in source order, spaces skipped.
pub open spec fn punct_tokens(src: Seq<char>, fname: Seq<char>, i: nat, line: nat) -> Seq<
    TokenModel,
>
    decreases src.len() - i,
    when i <= src.len()
{
    if i >= src.len() {
        Seq::empty()
    } else if src[i as int] == ' ' {
        punct_tokens(src, fname, i + 1, line)
    } else {
        seq![tok_at(punct_kind(src[i as int])->Some_0, fname, line)] + punct_tokens(
            src,
            fname,
            i + 1,
            line,
        )
    }
}

/// Round-trip law: scanning source built purely from single-character
/// punctuation and separating spaces yields exactly one token per
/// punctuation character, in source order, a trailing end-of-file token,
/// and no lexical error.
pub proof fn lemma_punctuation_round_trip(src: Seq<char>, fname: Seq<char>, i: nat, line: nat)
    requires
        i <= src.len(),
        forall|k: int|
            i <= k < src.len() ==> punct_kind(#[trigger] src[k]) is Some || src[k] == ' ',
    ensures
        scan_from(src, fname, i, line).tokens =~= punct_tokens(src, fname, i, line) + seq![
            tok_at(TokenTypeModel::Eof, fname, line),
        ],
        !scan_from(src, fname, i, line).had_error,
    decreases src.len() - i,
{
    if i < src.len() {
        lemma_punctuation_round_trip(src, fname, i + 1, line);
        let c = src[i as int];
        if c == ' ' {
        } else {
            assert(punct_kind(c) is Some);
            assert(scan_from(src, fname, i, line) == scan_cons(
                tok_at(punct_kind(c)->Some_0, fname, line),
                scan_from(src, fname, i + 1, line),
            ));
        }
    }
}

} // verus!
