use vstd::prelude::*;
use vstd::string::*;

use crate::token::{Token, TokenV, tokens_view};

verus! {

broadcast use vstd::string::axiom_spec_iter;

/// Whether `c` has the Unicode `Alphabetic` property.
pub uninterp spec fn alphabetic(c: char) -> bool;

/// Whether `c` is alphabetic or numeric in the Unicode sense.
pub uninterp spec fn alphanumeric(c: char) -> bool;

/// Relies on `char::is_alphabetic`: the answer depends on the character alone.
#[verifier::external_body]
fn is_alphabetic(c: char) -> (r: bool)
    ensures
        r == alphabetic(c),
{
    c.is_alphabetic()
}

/// Relies on `char::is_alphanumeric`: the answer depends on the character alone.
#[verifier::external_body]
fn is_alphanumeric(c: char) -> (r: bool)
    ensures
        r == alphanumeric(c),
{
    c.is_alphanumeric()
}

pub open spec fn is_digit(c: char) -> bool {
    '0' <= c && c <= '9'
}

/// The number of ASCII digits at the start of `s`.
pub open spec fn digits_len(s: Seq<char>) -> nat
    decreases s.len(),
{
    if s.len() > 0 && is_digit(s[0]) {
        1 + digits_len(s.drop_first())
    } else {
        0
    }
}

/// The number of characters at the start of `s` that may continue an identifier.
pub open spec fn ident_tail_len(s: Seq<char>) -> nat
    decreases s.len(),
{
    if s.len() > 0 && (alphanumeric(s[0]) || s[0] == '_') {
        1 + ident_tail_len(s.drop_first())
    } else {
        0
    }
}

/// The length of the number literal at the start of `s`: digits, then
/// optionally one `.` and the digits after it.
pub open spec fn number_len(s: Seq<char>) -> nat {
    let d = digits_len(s);
    if d < s.len() && s[d as int] == '.' {
        d + 1 + digits_len(s.skip(d + 1int))
    } else {
        d
    }
}

/// Whether the second character of `s` is `c`.
pub open spec fn followed_by(s: Seq<char>, c: char) -> bool {
    s.len() > 1 && s[1] == c
}

/// What the lexeme at the start of a non-empty `s` gives: the token, if
/// any, and the number of characters it takes.
pub open spec fn lexeme(s: Seq<char>) -> (Option<TokenV>, nat) {
    let c = s[0];
    if is_digit(c) {
        (Some(TokenV::Number(s.take(number_len(s) as int))), number_len(s))
    } else if c == '+' {
        (Some(TokenV::Plus), 1)
    } else if c == '-' {
        (Some(TokenV::Minus), 1)
    } else if c == '*' {
        (Some(TokenV::Multiply), 1)
    } else if c == '/' {
        (Some(TokenV::Divide), 1)
    } else if c == '(' {
        (Some(TokenV::LeftParenthesis), 1)
    } else if c == ')' {
        (Some(TokenV::RightParenthesis), 1)
    } else if c == '=' {
        if followed_by(s, '=') { (Some(TokenV::Equal), 2) } else { (None, 1) }
    } else if c == '!' {
        if followed_by(s, '=') { (Some(TokenV::NotEqual), 2) } else { (None, 1) }
    } else if c == '<' {
        if followed_by(s, '=') {
            (Some(TokenV::LessThanOrEqual), 2)
        } else {
            (Some(TokenV::LessThan), 1)
        }
    } else if c == '>' {
        if followed_by(s, '=') {
            (Some(TokenV::GreaterThanOrEqual), 2)
        } else {
            (Some(TokenV::GreaterThan), 1)
        }
    } else if c == '&' {
        if followed_by(s, '&') { (Some(TokenV::And), 2) } else { (None, 1) }
    } else if c == '|' {
        if followed_by(s, '|') { (Some(TokenV::Or), 2) } else { (None, 1) }
    } else if c == ' ' {
        (None, 1)
    } else if alphabetic(c) {
        let n = 1 + ident_tail_len(s.drop_first());
        (Some(TokenV::Identifier(s.take(n as int))), n)
    } else {
        (None, 1)
    }
}

/// The tokens of `s`, lexeme by lexeme from the left; characters that
/// start no token are dropped.
pub open spec fn tokens_of(s: Seq<char>) -> Seq<TokenV>
    decreases s.len(),
    via tokens_of_decreases
{
    if s.len() == 0 {
        Seq::empty()
    } else {
        let rest = tokens_of(s.skip(lexeme(s).1 as int));
        match lexeme(s).0 {
            Some(t) => seq![t] + rest,
            None => rest,
        }
    }
}

#[via_fn]
proof fn tokens_of_decreases(s: Seq<char>) {
    if s.len() > 0 {
        lemma_lexeme_len(s);
    }
}

proof fn lemma_digits_len(s: Seq<char>)
    ensures
        digits_len(s) <= s.len(),
    decreases s.len(),
{
    if s.len() > 0 && is_digit(s[0]) {
        lemma_digits_len(s.drop_first());
    }
}

proof fn lemma_ident_tail_len(s: Seq<char>)
    ensures
        ident_tail_len(s) <= s.len(),
    decreases s.len(),
{
    if s.len() > 0 && (alphanumeric(s[0]) || s[0] == '_') {
        lemma_ident_tail_len(s.drop_first());
    }
}

proof fn lemma_lexeme_len(s: Seq<char>)
    requires
        s.len() > 0,
    ensures
        1 <= lexeme(s).1 <= s.len(),
{
    lemma_digits_len(s);
    lemma_ident_tail_len(s.drop_first());
    let d = digits_len(s);
    if d < s.len() {
        lemma_digits_len(s.skip(d + 1int));
    }
    if is_digit(s[0]) {
        assert(s.drop_first().len() < s.len());
        assert(d == 1 + digits_len(s.drop_first()));
    }
}

/// The token, if any, of an optional exec token.
pub open spec fn option_view(t: Option<Token>) -> Option<TokenV> {
    match t {
        Some(t) => Some(t@),
        None => None,
    }
}

/// The characters of `input`, in order.
fn chars_of(input: &str) -> (r: Vec<char>)
    ensures
        r@ == input@,
{
    let mut v: Vec<char> = Vec::new();
    for c in it: input.chars()
        invariant
            it.seq() == input@,
            v@ == it.seq().take(it.index()),
    {
        v.push(c);
    }
    v
}

/// The end of the run of ASCII digits that starts at `start`.
fn digits_end(chars: &Vec<char>, start: usize) -> (end: usize)
    requires
        start <= chars@.len(),
    ensures
        end == start + digits_len(chars@.skip(start as int)),
{
    let mut j: usize = start;
    while j < chars.len() && '0' <= chars[j] && chars[j] <= '9'
        invariant
            start <= j <= chars@.len(),
            digits_len(chars@.skip(start as int)) == (j - start) + digits_len(chars@.skip(j as int)),
        decreases chars@.len() - j,
    {
        assert(chars@.skip(j as int).drop_first() =~= chars@.skip(j + 1));
        j = j + 1;
    }
    j
}

/// The end of the run of characters that may continue an identifier, from `start`.
fn ident_end(chars: &Vec<char>, start: usize) -> (end: usize)
    requires
        start <= chars@.len(),
    ensures
        end == start + ident_tail_len(chars@.skip(start as int)),
{
    let mut j: usize = start;
    while j < chars.len() && (is_alphanumeric(chars[j]) || chars[j] == '_')
        invariant
            start <= j <= chars@.len(),
            ident_tail_len(chars@.skip(start as int)) == (j - start) + ident_tail_len(
                chars@.skip(j as int),
            ),
        decreases chars@.len() - j,
    {
        assert(chars@.skip(j as int).drop_first() =~= chars@.skip(j + 1));
        j = j + 1;
    }
    j
}

/// Whether the character after position `i` is `c`.
fn next_is(chars: &Vec<char>, i: usize, c: char) -> (r: bool)
    requires
        i < chars@.len(),
    ensures
        r == followed_by(chars@.skip(i as int), c),
{
    i < chars.len() - 1 && chars[i + 1] == c
}

/// The lexeme that starts at position `i`: its token, if any, and its length.
fn lexeme_at(input: &str, chars: &Vec<char>, i: usize) -> (r: (Option<Token>, usize))
    requires
        chars@ == input@,
        i < chars.len(),
    ensures
        option_view(r.0) == lexeme(input@.skip(i as int)).0,
        r.1 == lexeme(input@.skip(i as int)).1,
{
    let ghost s = input@.skip(i as int);
    let c = chars[i];
    assert(s[0] == c);
    if '0' <= c && c <= '9' {
        let d_end = digits_end(chars, i);
        let mut end = d_end;
        if d_end < chars.len() && chars[d_end] == '.' {
            end = digits_end(chars, d_end + 1);
            assert(s.skip(digits_len(s) + 1int) =~= chars@.skip(d_end + 1));
        }
        proof {
            lemma_digits_len(chars@.skip(i as int));
            lemma_digits_len(chars@.skip(d_end + 1));
        }
        let text = input.substring_char(i, end).to_owned();
        assert(text@ =~= s.take(number_len(s) as int));
        (Some(Token::Number(text)), end - i)
    } else if c == '+' {
        (Some(Token::Plus), 1)
    } else if c == '-' {
        (Some(Token::Minus), 1)
    } else if c == '*' {
        (Some(Token::Multiply), 1)
    } else if c == '/' {
        (Some(Token::Divide), 1)
    } else if c == '(' {
        (Some(Token::LeftParenthesis), 1)
    } else if c == ')' {
        (Some(Token::RightParenthesis), 1)
    } else if c == '=' {
        if next_is(chars, i, '=') { (Some(Token::Equal), 2) } else { (None, 1) }
    } else if c == '!' {
        if next_is(chars, i, '=') { (Some(Token::NotEqual), 2) } else { (None, 1) }
    } else if c == '<' {
        if next_is(chars, i, '=') {
            (Some(Token::LessThanOrEqual), 2)
        } else {
            (Some(Token::LessThan), 1)
        }
    } else if c == '>' {
        if next_is(chars, i, '=') {
            (Some(Token::GreaterThanOrEqual), 2)
        } else {
            (Some(Token::GreaterThan), 1)
        }
    } else if c == '&' {
        if next_is(chars, i, '&') { (Some(Token::And), 2) } else { (None, 1) }
    } else if c == '|' {
        if next_is(chars, i, '|') { (Some(Token::Or), 2) } else { (None, 1) }
    } else if c == ' ' {
        (None, 1)
    } else if is_alphabetic(c) {
        let end = ident_end(chars, i + 1);
        assert(s.drop_first() =~= chars@.skip(i + 1));
        proof {
            lemma_ident_tail_len(chars@.skip(i + 1));
        }
        let text = input.substring_char(i, end).to_owned();
        assert(text@ =~= s.take(end - i));
        (Some(Token::Identifier(text)), end - i)
    } else {
        (None, 1)
    }
}

/// Scans `input` into tokens, from the left. Characters that start no token
/// (spaces, a lone `=`, `!`, `&` or `|`, any other symbol) are dropped.
pub fn tokenize(input: &str) -> (r: Vec<Token>)
    ensures
        tokens_view(r@) == tokens_of(input@),
        numbers_well_formed(tokens_view(r@)),
{
    proof {
        lemma_number_tokens_well_formed(input@);
    }
    let chars = chars_of(input);
    let n = chars.len();
    let mut tokens: Vec<Token> = Vec::new();
    let mut i: usize = 0;
    assert(input@.skip(0) =~= input@);
    assert(tokens_view(tokens@) + tokens_of(input@) =~= tokens_of(input@));
    while i < n
        invariant
            i <= n,
            n == chars@.len(),
            chars@ == input@,
            tokens_view(tokens@) + tokens_of(input@.skip(i as int)) == tokens_of(input@),
        decreases n - i,
    {
        let ghost s = input@.skip(i as int);
        let (tok, len) = lexeme_at(input, &chars, i);
        proof {
            lemma_lexeme_len(s);
            assert(s.skip(len as int) =~= input@.skip(i + len));
        }
        match tok {
            Some(t) => {
                let ghost before = tokens@;
                tokens.push(t);
                assert(tokens_view(tokens@) =~= tokens_view(before).push(t@));
                assert(tokens_view(tokens@) + tokens_of(input@.skip(i + len)) =~= tokens_view(
                    before,
                ) + tokens_of(s));
            },
            None => {},
        }
        i = i + len;
    }
    assert(input@.skip(i as int) =~= Seq::<char>::empty());
    assert(tokens_view(tokens@) + tokens_of(input@.skip(i as int)) =~= tokens_view(tokens@));
    tokens
}

/// Whether `c` is dropped wherever a lexeme could start: a space, or a
/// character that starts no token at all.
pub open spec fn is_skipped(c: char) -> bool {
    c == ' ' || !(is_digit(c) || alphabetic(c) || c == '+' || c == '-' || c == '*' || c == '/'
        || c == '(' || c == ')' || c == '=' || c == '!' || c == '<' || c == '>' || c == '&'
        || c == '|')
}

/// Scanning depends on the text alone: equal texts give equal tokens.
pub proof fn lemma_tokenize_deterministic(a: Seq<char>, b: Seq<char>)
    requires
        a == b,
    ensures
        tokens_of(a) == tokens_of(b),
{
}

/// A space, or a character that starts no token, contributes no token where
/// a lexeme starts: it is dropped, and scanning goes on after it.
pub proof fn lemma_skipped_char(c: char, s: Seq<char>)
    requires
        is_skipped(c),
    ensures
        tokens_of(seq![c] + s) == tokens_of(s),
{
    let t = seq![c] + s;
    assert(t[0] == c);
    assert(t.skip(1) =~= s);
}

/// Spaces at the start of a text give no tokens.
pub proof fn lemma_leading_spaces(n: nat, s: Seq<char>)
    ensures
        tokens_of(Seq::new(n, |i: int| ' ') + s) == tokens_of(s),
    decreases n,
{
    if n > 0 {
        let spaces = Seq::new(n, |i: int| ' ');
        let fewer = Seq::new((n - 1) as nat, |i: int| ' ');
        assert(spaces + s =~= seq![' '] + (fewer + s));
        lemma_skipped_char(' ', fewer + s);
        lemma_leading_spaces((n - 1) as nat, s);
    }
}

/// Whether `c` ends any lexeme before it and starts none: a skipped
/// character that continues no number, identifier or two-character operator.
pub open spec fn is_separator(c: char) -> bool {
    is_skipped(c) && !alphanumeric(c) && c != '_' && c != '.'
}

proof fn lemma_digits_len_prefix(a: Seq<char>, t: Seq<char>)
    requires
        t.len() > 0,
        !is_digit(t[0]),
    ensures
        digits_len(a + t) == digits_len(a),
    decreases a.len(),
{
    let x = a + t;
    if a.len() > 0 {
        assert(x[0] == a[0]);
        assert(x.drop_first() =~= a.drop_first() + t);
        lemma_digits_len_prefix(a.drop_first(), t);
    } else {
        assert(x =~= t);
    }
}

proof fn lemma_ident_tail_len_prefix(a: Seq<char>, t: Seq<char>)
    requires
        t.len() > 0,
        !(alphanumeric(t[0]) || t[0] == '_'),
    ensures
        ident_tail_len(a + t) == ident_tail_len(a),
    decreases a.len(),
{
    let x = a + t;
    if a.len() > 0 {
        assert(x[0] == a[0]);
        assert(x.drop_first() =~= a.drop_first() + t);
        lemma_ident_tail_len_prefix(a.drop_first(), t);
    } else {
        assert(x =~= t);
    }
}

/// A separator after a non-empty `a` leaves the first lexeme of `a` as it is.
proof fn lemma_lexeme_before_separator(a: Seq<char>, c: char, b: Seq<char>)
    requires
        a.len() > 0,
        is_separator(c),
    ensures
        lexeme(a + seq![c] + b) == lexeme(a),
{
    let t = seq![c] + b;
    let x = a + t;
    assert(a + seq![c] + b =~= x);
    assert(t[0] == c);
    assert(x[0] == a[0]);
    lemma_lexeme_len(a);
    if a.len() > 1 {
        assert(x[1] == a[1]);
    } else {
        assert(x[1] == c);
    }
    if is_digit(a[0]) {
        lemma_digits_len_prefix(a, t);
        lemma_digits_len(a);
        let d = digits_len(a);
        if d < a.len() {
            assert(x[d as int] == a[d as int]);
            assert(x.skip(d + 1int) =~= a.skip(d + 1int) + t);
            lemma_digits_len_prefix(a.skip(d + 1int), t);
        } else {
            assert(x[d as int] == c);
        }
        assert(x.take(number_len(a) as int) =~= a.take(number_len(a) as int));
    } else if alphabetic(a[0]) {
        assert(x.drop_first() =~= a.drop_first() + t);
        lemma_ident_tail_len_prefix(a.drop_first(), t);
        lemma_ident_tail_len(a.drop_first());
        let n = 1 + ident_tail_len(a.drop_first());
        assert(x.take(n as int) =~= a.take(n as int));
    }
}

/// A separator splits the text in two: scanning `a`, then `c`, then `b` gives
/// the tokens of `a` followed by those of `b`. Spaces between tokens, and
/// characters that start no token, change nothing.
pub proof fn lemma_separator(a: Seq<char>, c: char, b: Seq<char>)
    requires
        is_separator(c),
    ensures
        tokens_of(a + seq![c] + b) == tokens_of(a) + tokens_of(b),
    decreases a.len(),
{
    let x = a + seq![c] + b;
    if a.len() == 0 {
        assert(x =~= seq![c] + b);
        lemma_skipped_char(c, b);
        assert(tokens_of(a) + tokens_of(b) =~= tokens_of(b));
    } else {
        lemma_lexeme_before_separator(a, c, b);
        lemma_lexeme_len(a);
        let n = lexeme(a).1;
        assert(x.skip(n as int) =~= a.skip(n as int) + seq![c] + b);
        lemma_separator(a.skip(n as int), c, b);
        match lexeme(a).0 {
            Some(t) => {
                assert(tokens_of(x) =~= seq![t] + (tokens_of(a.skip(n as int)) + tokens_of(b)));
            },
            None => {},
        }
        assert(tokens_of(x) =~= tokens_of(a) + tokens_of(b));
    }
}

pub open spec fn all_digits(t: Seq<char>) -> bool {
    forall|i: int| 0 <= i < t.len() ==> is_digit(#[trigger] t[i])
}

/// Whether `t` is the text of a number literal: ASCII digits, at least one,
/// then optionally a `.` and more digits. Every such text reads as a decimal
/// number.
pub open spec fn is_number_literal(t: Seq<char>) -> bool {
    &&& t.len() > 0
    &&& is_digit(t[0])
    &&& all_digits(t) || exists|k: int|
        0 < k < t.len() && #[trigger] t[k] == '.' && all_digits(t.take(k)) && all_digits(
            t.skip(k + 1),
        )
}

/// Every number token in `ts` holds the text of a number literal.
pub open spec fn numbers_well_formed(ts: Seq<TokenV>) -> bool {
    forall|i: int|
        0 <= i < ts.len() ==> (#[trigger] ts[i] matches TokenV::Number(t) ==> is_number_literal(t))
}

proof fn lemma_digits_prefix(s: Seq<char>)
    ensures
        all_digits(s.take(digits_len(s) as int)),
    decreases s.len(),
{
    if s.len() > 0 && is_digit(s[0]) {
        let rest = s.drop_first();
        lemma_digits_prefix(rest);
        lemma_digits_len(rest);
        let t = s.take(digits_len(s) as int);
        assert forall|i: int| 0 <= i < t.len() implies is_digit(#[trigger] t[i]) by {
            if i > 0 {
                assert(t[i] == rest.take(digits_len(rest) as int)[i - 1]);
            }
        }
    } else {
        assert forall|i: int| 0 <= i < s.take(0).len() implies is_digit(#[trigger] s.take(0)[i]) by {}
    }
}

proof fn lemma_number_literal(s: Seq<char>)
    requires
        s.len() > 0,
        is_digit(s[0]),
    ensures
        is_number_literal(s.take(number_len(s) as int)),
{
    lemma_digits_prefix(s);
    lemma_digits_len(s);
    let d = digits_len(s);
    assert(d > 0) by {
        assert(d == 1 + digits_len(s.drop_first()));
    }
    let t = s.take(number_len(s) as int);
    if d < s.len() && s[d as int] == '.' {
        let after = s.skip(d + 1int);
        lemma_digits_prefix(after);
        lemma_digits_len(after);
        assert(t.take(d as int) =~= s.take(d as int));
        assert(t.skip(d + 1int) =~= after.take(digits_len(after) as int));
        assert(t[d as int] == '.');
    } else {
        assert(t =~= s.take(d as int));
    }
}

/// Every number token that scanning gives holds the text of a number literal,
/// whatever the text scanned.
pub proof fn lemma_number_tokens_well_formed(s: Seq<char>)
    ensures
        numbers_well_formed(tokens_of(s)),
    decreases s.len(),
{
    if s.len() > 0 {
        lemma_lexeme_len(s);
        let n = lexeme(s).1;
        let rest = tokens_of(s.skip(n as int));
        lemma_number_tokens_well_formed(s.skip(n as int));
        if is_digit(s[0]) {
            lemma_number_literal(s);
        }
        match lexeme(s).0 {
            Some(t) => {
                let ts = seq![t] + rest;
                assert forall|i: int| 0 <= i < ts.len() implies (#[trigger] ts[i] matches TokenV::Number(
                    u,
                ) ==> is_number_literal(u)) by {
                    if i > 0 {
                        assert(ts[i] == rest[i - 1]);
                    }
                }
            },
            None => {},
        }
    }
}

} // verus!
