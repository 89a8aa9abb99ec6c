//! The lexer: turns source text into a sequence of typed tokens with source
//! positions.

use vstd::prelude::*;
use vstd::string::*;

use crate::Error;
use crate::ErrorKind;
use crate::text::is_digit;
use crate::text::digit;
use crate::text::push_char;

verus! {

/// A `path:line:col` provenance tag, lexed from a `<path:line:col>` construct.
#[derive(Debug, PartialEq)]
pub struct DebugSymbol {
    pub path: String,
    pub line: usize,
    pub col: usize,
}

impl Clone for DebugSymbol {
    fn clone(&self) -> (r: Self)
        ensures
            r == *self,
    {
        DebugSymbol { path: self.path.clone(), line: self.line, col: self.col }
    }
}

/// The mathematical value of a [`DebugSymbol`].
#[verifier::ext_equal]
pub struct DsModel {
    pub path: Seq<char>,
    pub line: usize,
    pub col: usize,
}

impl View for DebugSymbol {
    type V = DsModel;

    open spec fn view(&self) -> DsModel {
        DsModel { path: self.path@, line: self.line, col: self.col }
    }
}

/// The payload of a token.
#[derive(Debug, PartialEq, Clone)]
pub enum TokenValue {
    Identifier(String),
    Label(String),
    Function(String),
    Integer(i32),
    /// A floating-point literal, kept as its source text: the machine itself
    /// never computes with floats (see [`crate::evaluator::Request`]).
    Float(String),
    String(String),
    Punctuation(char),
    Buffer(String),
    Variable(String),
    DebugSymbol(DebugSymbol),
}

/// The mathematical value of a [`TokenValue`].
#[verifier::ext_equal]
pub enum TvModel {
    Identifier(Seq<char>),
    Label(Seq<char>),
    Function(Seq<char>),
    Integer(i32),
    Float(Seq<char>),
    Str(Seq<char>),
    Punctuation(char),
    Buffer(Seq<char>),
    Variable(Seq<char>),
    DebugSymbol(DsModel),
}

impl View for TokenValue {
    type V = TvModel;

    open spec fn view(&self) -> TvModel {
        match self {
            TokenValue::Identifier(s) => TvModel::Identifier(s@),
            TokenValue::Label(s) => TvModel::Label(s@),
            TokenValue::Function(s) => TvModel::Function(s@),
            TokenValue::Integer(i) => TvModel::Integer(*i),
            TokenValue::Float(s) => TvModel::Float(s@),
            TokenValue::String(s) => TvModel::Str(s@),
            TokenValue::Punctuation(c) => TvModel::Punctuation(*c),
            TokenValue::Buffer(s) => TvModel::Buffer(s@),
            TokenValue::Variable(s) => TvModel::Variable(s@),
            TokenValue::DebugSymbol(ds) => TvModel::DebugSymbol(ds@),
        }
    }
}

impl TokenValue {
    /// Extracts the debug symbol carried by this token value, or reports that
    /// it carries none.
    pub fn as_debug_symbol(&self) -> (r: Result<DebugSymbol, String>)
        ensures
            match self {
                TokenValue::DebugSymbol(ds) => r matches Ok(d) && d == ds,
                _ => r matches Err(m) && m@ == "Expected debug symbol"@,
            },
    {
        match self {
            TokenValue::DebugSymbol(ds) => Ok(ds.clone()),
            _ => Err("Expected debug symbol".to_owned()),
        }
    }
}

/// How a token value renders as text: its payload for textual tokens, digits
/// for numbers, and `path:line:col` for a debug symbol.
pub open spec fn tv_text(v: TvModel) -> Seq<char> {
    match v {
        TvModel::Identifier(s) => s,
        TvModel::Label(s) => s,
        TvModel::Function(s) => s,
        TvModel::Integer(i) => crate::text::spec_i32_string(i as int),
        TvModel::Float(s) => s,
        TvModel::Str(s) => s,
        TvModel::Punctuation(c) => seq![c],
        TvModel::Buffer(s) => s,
        TvModel::Variable(s) => s,
        TvModel::DebugSymbol(d) => d.path + seq![':'] + crate::text::nat_digits(d.line as int)
            + seq![':'] + crate::text::nat_digits(d.col as int),
    }
}

impl TokenValue {
    /// Renders the token value as text, as the assembler reads names and
    /// punctuation out of tokens.
    pub fn render(&self) -> (r: String)
        ensures
            r@ == tv_text(self@),
    {
        match self {
            TokenValue::Identifier(s) => s.clone(),
            TokenValue::Label(s) => s.clone(),
            TokenValue::Function(s) => s.clone(),
            TokenValue::Integer(i) => crate::text::i32_to_string(*i),
            TokenValue::Float(s) => s.clone(),
            TokenValue::String(s) => s.clone(),
            TokenValue::Punctuation(c) => {
                let mut s = String::new();
                push_char(&mut s, *c);
                assert(s@ =~= seq![*c]);
                s
            },
            TokenValue::Buffer(s) => s.clone(),
            TokenValue::Variable(s) => s.clone(),
            TokenValue::DebugSymbol(d) => {
                let mut s = d.path.clone();
                s.append(":");
                s.append(crate::text::usize_to_string(d.line).as_str());
                s.append(":");
                s.append(crate::text::usize_to_string(d.col).as_str());
                proof {
                    reveal_strlit(":");
                    assert(":"@ =~= seq![':']);
                    assert(s@ =~= tv_text(self@));
                }
                s
            },
        }
    }
}

/// The syntactic category of a token.
#[derive(Debug, PartialEq, Eq, Structural, Clone, Copy)]
pub enum TokenKind {
    Identifier,
    Label,
    Function,
    Integer,
    Float,
    String,
    Punctuation,
    Buffer,
    Variable,
    DebugSymbol,
}

/// One token: its category, its payload, and the source position it started
/// at.
#[derive(Debug, PartialEq, Clone)]
pub struct Token {
    pub kind: TokenKind,
    pub value: TokenValue,
    pub line: usize,
    pub col: usize,
}

/// The mathematical value of a [`Token`].
#[verifier::ext_equal]
pub struct TokenModel {
    pub kind: TokenKind,
    pub value: TvModel,
    pub line: usize,
    pub col: usize,
}

impl View for Token {
    type V = TokenModel;

    open spec fn view(&self) -> TokenModel {
        TokenModel { kind: self.kind, value: self.value@, line: self.line, col: self.col }
    }
}

/// Whether `char::is_alphabetic` accepts a character: the Unicode
/// `Alphabetic` property.
pub uninterp spec fn char_alphabetic(c: char) -> bool;

/// Whether `char::is_numeric` accepts a character: the Unicode `Number`
/// general category.
pub uninterp spec fn char_numeric(c: char) -> bool;

/// Whether `char::is_whitespace` accepts a character: the Unicode
/// `White_Space` property.
pub uninterp spec fn char_whitespace(c: char) -> bool;

/// Relies on `char::is_alphabetic`: a pure table lookup of the Unicode
/// `Alphabetic` property, a function of the character alone.
pub assume_specification[ char::is_alphabetic ](c: char) -> (r: bool)
    ensures
        r == char_alphabetic(c),
;

/// Relies on `char::is_alphanumeric`, documented as returning true exactly
/// when `is_alphabetic` or `is_numeric` does.
pub assume_specification[ char::is_alphanumeric ](c: char) -> (r: bool)
    ensures
        r == (char_alphabetic(c) || char_numeric(c)),
;

/// Relies on `char::is_whitespace`: a pure table lookup of the Unicode
/// `White_Space` property, a function of the character alone.
pub assume_specification[ char::is_whitespace ](c: char) -> (r: bool)
    ensures
        r == char_whitespace(c),
;

/// The character classes on which [`until`] keeps consuming.
#[derive(Debug, PartialEq, Eq, Structural, Clone, Copy)]
pub enum CharPred {
    /// Continuation of an identifier or of a sigil-prefixed name.
    IdentTail,
    /// Continuation of a numeric literal.
    NumberTail,
    /// Inside a string literal.
    NotQuote,
    /// Inside a debug-symbol construct.
    NotGt,
}

/// Whether `c` belongs to the class `p`.
pub open spec fn pred_holds(p: CharPred, c: char) -> bool {
    match p {
        CharPred::IdentTail => char_alphabetic(c) || char_numeric(c) || c == '_',
        CharPred::NumberTail => is_digit(c) || c == '.',
        CharPred::NotQuote => c != '"',
        CharPred::NotGt => c != '>',
    }
}

fn pred_eval(p: CharPred, c: char) -> (r: bool)
    ensures
        r == pred_holds(p, c),
{
    match p {
        CharPred::IdentTail => c.is_alphanumeric() || c == '_',
        CharPred::NumberTail => digit(c) || c == '.',
        CharPred::NotQuote => c != '"',
        CharPred::NotGt => c != '>',
    }
}

/// The decoding applied to the character after a backslash.
pub open spec fn escape_char(c: char) -> char {
    if c == 'n' {
        '\n'
    } else if c == 't' {
        '\t'
    } else if c == '\\' {
        '\\'
    } else if c == '"' {
        '"'
    } else {
        c
    }
}

fn escape(c: char) -> (r: char)
    ensures
        r == escape_char(c),
{
    match c {
        'n' => '\n',
        't' => '\t',
        '\\' => '\\',
        '"' => '"',
        _ => c,
    }
}

/// What [`until`] collects and where it stops: starting at `start`, it
/// consumes characters of class `p`, decoding backslash escapes, and returns
/// the decoded text together with the index of the first unconsumed
/// character.
pub open spec fn until_spec(chars: Seq<char>, start: int, p: CharPred) -> (Seq<char>, int)
    decreases chars.len() - start,
{
    if start < 0 || start >= chars.len() || !pred_holds(p, chars[start]) {
        (Seq::empty(), start)
    } else if chars[start] == '\\' && start + 1 < chars.len() {
        let r = until_spec(chars, start + 2, p);
        (seq![escape_char(chars[start + 1])] + r.0, r.1)
    } else {
        let r = until_spec(chars, start + 1, p);
        (seq![chars[start]] + r.0, r.1)
    }
}

/// Where [`until`] stops always lies between its start and the end of the
/// text, and it makes progress whenever the first character is consumable.
pub proof fn lemma_until_bounds(chars: Seq<char>, start: int, p: CharPred)
    ensures
        start <= until_spec(chars, start, p).1,
        start <= chars.len() ==> until_spec(chars, start, p).1 <= chars.len(),
        (0 <= start < chars.len() && pred_holds(p, chars[start])) ==> until_spec(
            chars,
            start,
            p,
        ).1 > start,
    decreases chars.len() - start,
{
    if 0 <= start < chars.len() && pred_holds(p, chars[start]) {
        if chars[start] == '\\' && start + 1 < chars.len() {
            lemma_until_bounds(chars, start + 2, p);
        } else {
            lemma_until_bounds(chars, start + 1, p);
        }
    }
}

/// Consumes characters of class `check` starting at `start`, decoding
/// backslash escapes, and returns the decoded text together with the index of
/// the first unconsumed character.
pub fn until(chars: &Vec<char>, start: usize, check: CharPred) -> (r: (String, usize))
    ensures
        r.0@ == until_spec(chars@, start as int, check).0,
        r.1 as int == until_spec(chars@, start as int, check).1,
        start <= r.1,
{
    let mut cur = start;
    let mut value = String::new();
    proof {
        assert(value@ + until_spec(chars@, cur as int, check).0 =~= until_spec(
            chars@,
            start as int,
            check,
        ).0);
    }
    while cur < chars.len() && pred_eval(check, chars[cur])
        invariant
            start <= cur,
            until_spec(chars@, start as int, check).0 == value@ + until_spec(
                chars@,
                cur as int,
                check,
            ).0,
            until_spec(chars@, start as int, check).1 == until_spec(chars@, cur as int, check).1,
        decreases chars@.len() - cur,
    {
        let ghost pre_value = value@;
        let ghost pre_cur = cur as int;
        if chars[cur] == '\\' && cur + 1 < chars.len() {
            cur += 1;
            let c = chars[cur];
            push_char(&mut value, escape(c));
            cur += 1;
            proof {
                assert(value@ =~= pre_value + seq![escape_char(chars@[pre_cur + 1])]);
                assert(value@ + until_spec(chars@, cur as int, check).0 =~= pre_value + (seq![
                    escape_char(chars@[pre_cur + 1]),
                ] + until_spec(chars@, pre_cur + 2, check).0));
            }
        } else {
            let c = chars[cur];
            push_char(&mut value, c);
            cur += 1;
            proof {
                assert(value@ =~= pre_value + seq![chars@[pre_cur]]);
                assert(value@ + until_spec(chars@, cur as int, check).0 =~= pre_value + (seq![
                    chars@[pre_cur],
                ] + until_spec(chars@, pre_cur + 1, check).0));
            }
        }
    }
    proof {
        assert(value@ + until_spec(chars@, cur as int, check).0 =~= value@);
    }
    (value, cur)
}

/// The number of `.` characters in `s`.
pub open spec fn dot_count(s: Seq<char>) -> int
    decreases s.len(),
{
    if s.len() == 0 {
        0
    } else {
        dot_count(s.drop_last()) + if s.last() == '.' {
            1int
        } else {
            0int
        }
    }
}

fn dots(s: &str) -> (r: usize)
    ensures
        r == dot_count(s@),
{
    let n = s.unicode_len();
    let mut r: usize = 0;
    let mut i: usize = 0;
    while i < n
        invariant
            i <= n,
            n == s@.len(),
            r == dot_count(s@.subrange(0, i as int)),
            r <= i,
        decreases n - i,
    {
        proof {
            let pre = s@.subrange(0, i as int);
            let post = s@.subrange(0, i + 1);
            assert(post.drop_last() =~= pre);
        }
        if s.get_char(i) == '.' {
            r += 1;
        }
        i += 1;
    }
    assert(s@.subrange(0, s@.len() as int) =~= s@);
    r
}

/// The index of the first `:` at or after `from`, or the length of `s` if
/// there is none.
pub open spec fn find_colon(s: Seq<char>, from: int) -> int
    decreases s.len() - from,
{
    if from < 0 || from >= s.len() {
        s.len() as int
    } else if s[from] == ':' {
        from
    } else {
        find_colon(s, from + 1)
    }
}

proof fn lemma_find_colon_bounds(s: Seq<char>, from: int)
    requires
        0 <= from <= s.len(),
    ensures
        from <= find_colon(s, from) <= s.len(),
    decreases s.len() - from,
{
    if from < s.len() && s[from] != ':' {
        lemma_find_colon_bounds(s, from + 1);
    }
}

fn find_colon_exec(s: &str, from: usize) -> (r: usize)
    requires
        from as int <= s@.len(),
    ensures
        r == find_colon(s@, from as int),
        from <= r <= s@.len(),
{
    let n = s.unicode_len();
    if from >= n {
        proof {
            lemma_find_colon_bounds(s@, s@.len() as int);
        }
        return n;
    }
    let mut i: usize = from;
    while i < n
        invariant
            from <= i <= n,
            n == s@.len(),
            find_colon(s@, from as int) == find_colon(s@, i as int),
        decreases n - i,
    {
        if s.get_char(i) == ':' {
            return i;
        }
        i += 1;
    }
    i
}

/// How a lexed `<path:line:col>` body is interpreted: exactly two colons,
/// with the line and the column parsing as decimal integers.
pub open spec fn ds_parse(s: Seq<char>) -> Option<(Seq<char>, usize, usize)> {
    let i1 = find_colon(s, 0);
    let i2 = find_colon(s, i1 + 1);
    let i3 = find_colon(s, i2 + 1);
    if i1 >= s.len() || i2 >= s.len() || i3 < s.len() {
        None
    } else {
        match (
            crate::text::spec_parse_usize(s.subrange(i1 + 1, i2)),
            crate::text::spec_parse_usize(s.subrange(i2 + 1, s.len() as int)),
        ) {
            (Some(l), Some(c)) => Some((s.subrange(0, i1), l, c)),
            _ => None,
        }
    }
}

/// Reports whether `c` occurs in `s`.
pub fn could_be(c: char, s: &str) -> (r: bool)
    ensures
        r == exists|i: int| 0 <= i < s@.len() && s@[i] == c,
{
    let n = s.unicode_len();
    let mut i: usize = 0;
    while i < n
        invariant
            i <= n,
            n == s@.len(),
            forall|j: int| 0 <= j < i ==> s@[j] != c,
        decreases n - i,
    {
        if s.get_char(i) == c {
            return true;
        }
        i += 1;
    }
    false
}

/// The byte length of text, as `str::len` reports it.
pub open spec fn byte_len(s: Seq<char>) -> usize {
    vstd::utf8::encode_utf8(s).len() as usize
}

/// The views of a sequence of tokens.
pub open spec fn toks_view(s: Seq<Token>) -> Seq<TokenModel> {
    s.map_values(|t: Token| t@)
}

/// Prepends a prefix of already-lexed tokens to the outcome of lexing the
/// rest, keeping a failure a failure.
pub open spec fn lex_join(prefix: Seq<TokenModel>, rest: Option<Seq<TokenModel>>) -> Option<
    Seq<TokenModel>,
> {
    match rest {
        Some(r) => Some(prefix + r),
        None => None,
    }
}

/// What [`lex`] produces from position `cur` onward, with `line` and `col`
/// the current source position: the token stream on success, or nothing when
/// the text cannot be tokenized.
pub open spec fn spec_lex_from(chars: Seq<char>, cur: int, line: usize, col: usize) -> Option<
    Seq<TokenModel>,
>
    decreases chars.len() - cur,
    when 0 <= cur
    via spec_lex_from_decreases
{
    if cur >= chars.len() {
        Some(Seq::empty())
    } else {
        let c = chars[cur];
        if char_alphabetic(c) {
            let u = until_spec(chars, cur, CharPred::IdentTail);
            let t = TokenModel {
                kind: TokenKind::Identifier,
                value: TvModel::Identifier(u.0),
                line,
                col,
            };
            lex_join(
                seq![t],
                spec_lex_from(
                    chars,
                    u.1,
                    line,
                    crate::text::sat_add_spec(col, byte_len(u.0) as int),
                ),
            )
        } else if c == '.' && cur + 1 < chars.len() && char_alphabetic(chars[cur + 1]) {
            let u = until_spec(chars, cur + 1, CharPred::IdentTail);
            let t = TokenModel { kind: TokenKind::Label, value: TvModel::Label("."@ + u.0), line, col };
            lex_join(
                seq![t],
                spec_lex_from(
                    chars,
                    u.1,
                    line,
                    crate::text::sat_add_spec(col, byte_len(u.0) as int + 1),
                ),
            )
        } else if c == '@' {
            let u = until_spec(chars, cur + 1, CharPred::IdentTail);
            let t = TokenModel {
                kind: TokenKind::Function,
                value: TvModel::Function("@"@ + u.0),
                line,
                col,
            };
            lex_join(
                seq![t],
                spec_lex_from(
                    chars,
                    u.1,
                    line,
                    crate::text::sat_add_spec(col, byte_len(u.0) as int + 1),
                ),
            )
        } else if c == '*' {
            let u = until_spec(chars, cur + 1, CharPred::IdentTail);
            let t = TokenModel { kind: TokenKind::Buffer, value: TvModel::Buffer("*"@ + u.0), line, col };
            lex_join(
                seq![t],
                spec_lex_from(
                    chars,
                    u.1,
                    line,
                    crate::text::sat_add_spec(col, byte_len(u.0) as int + 1),
                ),
            )
        } else if c == '$' {
            let u = until_spec(chars, cur + 1, CharPred::IdentTail);
            let t = TokenModel {
                kind: TokenKind::Variable,
                value: TvModel::Variable("$"@ + u.0),
                line,
                col,
            };
            lex_join(
                seq![t],
                spec_lex_from(
                    chars,
                    u.1,
                    line,
                    crate::text::sat_add_spec(col, byte_len(u.0) as int + 1),
                ),
            )
        } else if crate::text::is_digit(c) || c == '.' {
            let u = until_spec(chars, cur, CharPred::NumberTail);
            if u.0.contains('.') {
                if dot_count(u.0) == 1 && u.0.len() >= 2 {
                    let t = TokenModel { kind: TokenKind::Float, value: TvModel::Float(u.0), line, col };
                    lex_join(
                        seq![t],
                        spec_lex_from(
                            chars,
                            u.1,
                            line,
                            crate::text::sat_add_spec(
                                col,
                                byte_len(u.0) as int,
                            ),
                        ),
                    )
                } else {
                    None
                }
            } else {
                match crate::text::spec_parse_i32(u.0) {
                    Some(i) => {
                        let t = TokenModel {
                            kind: TokenKind::Integer,
                            value: TvModel::Integer(i),
                            line,
                            col,
                        };
                        lex_join(
                            seq![t],
                            spec_lex_from(
                                chars,
                                u.1,
                                line,
                                crate::text::sat_add_spec(
                                    col,
                                    byte_len(u.0) as int,
                                ),
                            ),
                        )
                    },
                    None => None,
                }
            }
        } else if c == '"' {
            let u = until_spec(chars, cur + 1, CharPred::NotQuote);
            if u.1 >= chars.len() {
                None
            } else {
                let col2 = crate::text::sat_add_spec(
                    crate::text::sat_add_spec(col, byte_len(u.0) as int),
                    1,
                );
                let t = TokenModel { kind: TokenKind::String, value: TvModel::Str(u.0), line, col: col2 };
                lex_join(seq![t], spec_lex_from(chars, u.1 + 1, line, col2))
            }
        } else if c == '<' {
            let u = until_spec(chars, cur + 1, CharPred::NotGt);
            if u.1 >= chars.len() {
                None
            } else {
                let col2 = crate::text::sat_add_spec(
                    crate::text::sat_add_spec(col, byte_len(u.0) as int),
                    1,
                );
                match ds_parse(u.0) {
                    Some(d) => {
                        let t = TokenModel {
                            kind: TokenKind::DebugSymbol,
                            value: TvModel::DebugSymbol(DsModel { path: d.0, line: d.1, col: d.2 }),
                            line,
                            col: col2,
                        };
                        lex_join(seq![t], spec_lex_from(chars, u.1 + 1, line, col2))
                    },
                    None => None,
                }
            }
        } else if c == ':' || c == ',' {
            let t = TokenModel {
                kind: TokenKind::Punctuation,
                value: TvModel::Punctuation(c),
                line,
                col,
            };
            lex_join(
                seq![t],
                spec_lex_from(chars, cur + 1, line, crate::text::sat_add_spec(col, 1)),
            )
        } else if c == '\n' {
            spec_lex_from(chars, cur + 1, crate::text::sat_add_spec(line, 1), 0)
        } else if char_whitespace(c) {
            spec_lex_from(chars, cur + 1, line, crate::text::sat_add_spec(col, 1))
        } else {
            None
        }
    }
}

#[via_fn]
proof fn spec_lex_from_decreases(chars: Seq<char>, cur: int, line: usize, col: usize) {
    if 0 <= cur < chars.len() {
        lemma_until_bounds(chars, cur, CharPred::IdentTail);
        lemma_until_bounds(chars, cur + 1, CharPred::IdentTail);
        lemma_until_bounds(chars, cur, CharPred::NumberTail);
        lemma_until_bounds(chars, cur + 1, CharPred::NotQuote);
        lemma_until_bounds(chars, cur + 1, CharPred::NotGt);
    }
}

proof fn lemma_toks_push(s: Seq<Token>, t: Token)
    ensures
        toks_view(s.push(t)) == toks_view(s).push(t@),
{
    assert(toks_view(s.push(t)) =~= toks_view(s).push(t@));
}

proof fn lemma_join_cons(prefix: Seq<TokenModel>, t: TokenModel, rest: Option<Seq<TokenModel>>)
    ensures
        lex_join(prefix, lex_join(seq![t], rest)) == lex_join(prefix.push(t), rest),
{
    match rest {
        Some(r) => {
            assert(prefix + (seq![t] + r) =~= prefix.push(t) + r);
        },
        None => {},
    }
}

fn sigil_name(prefix: &str, rest: &str) -> (r: String)
    ensures
        r@ == prefix@ + rest@,
{
    let mut s = prefix.to_owned();
    s.append(rest);
    s
}

fn quote_msg(prefix: &str, mid: &str) -> (r: String)
    ensures
        r@ == prefix@ + mid@ + "'"@,
{
    let mut s = prefix.to_owned();
    s.append(mid);
    s.append("'");
    assert(s@ == prefix@ + mid@ + "'"@);
    s
}

/// Turns source text into tokens: identifiers, sigil-prefixed names, numeric
/// and string literals, punctuation and debug symbols, with line and column
/// positions.
pub fn lex(input: String) -> (r: Result<Vec<Token>, Error>)
    ensures
        match r {
            Ok(toks) => spec_lex_from(input@, 0, 1, 0) == Some(toks_view(toks@)),
            Err(e) => spec_lex_from(input@, 0, 1, 0) is None && e.kind == ErrorKind::LexError,
        },
{
    let chars = crate::text::chars_of(input.as_str());
    let mut tokens: Vec<Token> = Vec::new();
    let mut cur: usize = 0;
    let mut line: usize = 1;
    let mut col: usize = 0;
    proof {
        if let Some(rest) = spec_lex_from(chars@, 0, 1, 0) {
            assert(Seq::<TokenModel>::empty() + rest =~= rest);
        }
        assert(toks_view(tokens@) =~= Seq::<TokenModel>::empty());
    }
    while cur < chars.len()
        invariant
            chars@ == input@,
            spec_lex_from(input@, 0, 1, 0) == lex_join(
                toks_view(tokens@),
                spec_lex_from(chars@, cur as int, line, col),
            ),
        decreases chars@.len() - cur,
    {
        let ghost pc = cur as int;
        let ghost pl = line;
        let ghost pcol = col;
        let ghost pre_toks = tokens@;
        let c = chars[cur];
        proof {
            reveal_strlit(":,");
            assert(":,"@.len() == 2 && ":,"@[0] == ':' && ":,"@[1] == ',');
        }
        if c.is_alphabetic() {
            proof {
                lemma_until_bounds(chars@, cur as int, CharPred::IdentTail);
            }
            let value = until(&chars, cur, CharPred::IdentTail);
            let blen = value.0.as_str().len();
            let t = Token {
                kind: TokenKind::Identifier,
                value: TokenValue::Identifier(value.0),
                line,
                col,
            };
            let ghost tm = t@;
            proof {
                lemma_toks_push(tokens@, t);
            }
            tokens.push(t);
            cur = value.1;
            col = crate::text::sat_add(col, blen);
            proof {
                let rest = spec_lex_from(chars@, cur as int, line, col);
                assert(spec_lex_from(chars@, pc, pl, pcol) == lex_join(seq![tm], rest));
                lemma_join_cons(toks_view(pre_toks), tm, rest);
            }
        } else if c == '.' && cur + 1 < chars.len() && chars[cur + 1].is_alphabetic() {
            proof {
                lemma_until_bounds(chars@, cur + 1, CharPred::IdentTail);
            }
            let value = until(&chars, cur + 1, CharPred::IdentTail);
            let blen = value.0.as_str().len();
            let t = Token {
                kind: TokenKind::Label,
                value: TokenValue::Label(sigil_name(".", value.0.as_str())),
                line,
                col,
            };
            let ghost tm = t@;
            proof {
                lemma_toks_push(tokens@, t);
            }
            tokens.push(t);
            cur = value.1;
            col = crate::text::sat_add1(col, blen);
            proof {
                let rest = spec_lex_from(chars@, cur as int, line, col);
                assert(spec_lex_from(chars@, pc, pl, pcol) == lex_join(seq![tm], rest));
                lemma_join_cons(toks_view(pre_toks), tm, rest);
            }
        } else if c == '@' {
            proof {
                lemma_until_bounds(chars@, cur + 1, CharPred::IdentTail);
            }
            let value = until(&chars, cur + 1, CharPred::IdentTail);
            let blen = value.0.as_str().len();
            let t = Token {
                kind: TokenKind::Function,
                value: TokenValue::Function(sigil_name("@", value.0.as_str())),
                line,
                col,
            };
            let ghost tm = t@;
            proof {
                lemma_toks_push(tokens@, t);
            }
            tokens.push(t);
            cur = value.1;
            col = crate::text::sat_add1(col, blen);
            proof {
                let rest = spec_lex_from(chars@, cur as int, line, col);
                assert(spec_lex_from(chars@, pc, pl, pcol) == lex_join(seq![tm], rest));
                lemma_join_cons(toks_view(pre_toks), tm, rest);
            }
        } else if c == '*' {
            proof {
                lemma_until_bounds(chars@, cur + 1, CharPred::IdentTail);
            }
            let value = until(&chars, cur + 1, CharPred::IdentTail);
            let blen = value.0.as_str().len();
            let t = Token {
                kind: TokenKind::Buffer,
                value: TokenValue::Buffer(sigil_name("*", value.0.as_str())),
                line,
                col,
            };
            let ghost tm = t@;
            proof {
                lemma_toks_push(tokens@, t);
            }
            tokens.push(t);
            cur = value.1;
            col = crate::text::sat_add1(col, blen);
            proof {
                let rest = spec_lex_from(chars@, cur as int, line, col);
                assert(spec_lex_from(chars@, pc, pl, pcol) == lex_join(seq![tm], rest));
                lemma_join_cons(toks_view(pre_toks), tm, rest);
            }
        } else if c == '$' {
            proof {
                lemma_until_bounds(chars@, cur + 1, CharPred::IdentTail);
            }
            let value = until(&chars, cur + 1, CharPred::IdentTail);
            let blen = value.0.as_str().len();
            let t = Token {
                kind: TokenKind::Variable,
                value: TokenValue::Variable(sigil_name("$", value.0.as_str())),
                line,
                col,
            };
            let ghost tm = t@;
            proof {
                lemma_toks_push(tokens@, t);
            }
            tokens.push(t);
            cur = value.1;
            col = crate::text::sat_add1(col, blen);
            proof {
                let rest = spec_lex_from(chars@, cur as int, line, col);
                assert(spec_lex_from(chars@, pc, pl, pcol) == lex_join(seq![tm], rest));
                lemma_join_cons(toks_view(pre_toks), tm, rest);
            }
        } else if crate::text::digit(c) || c == '.' {
            proof {
                lemma_until_bounds(chars@, cur as int, CharPred::NumberTail);
            }
            let value = until(&chars, cur, CharPred::NumberTail);
            let blen = value.0.as_str().len();
            if could_be('.', value.0.as_str()) {
                let n_dots = dots(value.0.as_str());
                if n_dots == 1 && value.0.as_str().unicode_len() >= 2 {
                    let t = Token {
                        kind: TokenKind::Float,
                        value: TokenValue::Float(value.0),
                        line,
                        col,
                    };
                    let ghost tm = t@;
                    proof {
                        lemma_toks_push(tokens@, t);
                    }
                    tokens.push(t);
                    cur = value.1;
                    col = crate::text::sat_add(col, blen);
                    proof {
                        let rest = spec_lex_from(chars@, cur as int, line, col);
                        assert(spec_lex_from(chars@, pc, pl, pcol) == lex_join(seq![tm], rest));
                        lemma_join_cons(toks_view(pre_toks), tm, rest);
                    }
                } else {
                    return Err(
                        Error::new(
                            ErrorKind::LexError,
                            quote_msg("Invalid float: '", value.0.as_str()),
                            line,
                            col,
                            &None,
                        ),
                    );
                }
            } else {
                match crate::text::parse_i32(value.0.as_str()) {
                    Some(i) => {
                        let t = Token {
                            kind: TokenKind::Integer,
                            value: TokenValue::Integer(i),
                            line,
                            col,
                        };
                        let ghost tm = t@;
                        proof {
                            lemma_toks_push(tokens@, t);
                        }
                        tokens.push(t);
                        cur = value.1;
                        col = crate::text::sat_add(col, blen);
                        proof {
                            let rest = spec_lex_from(chars@, cur as int, line, col);
                            assert(spec_lex_from(chars@, pc, pl, pcol) == lex_join(
                                seq![tm],
                                rest,
                            ));
                            lemma_join_cons(toks_view(pre_toks), tm, rest);
                        }
                    },
                    None => {
                        return Err(
                            Error::new(
                                ErrorKind::LexError,
                                quote_msg("Invalid integer: '", value.0.as_str()),
                                line,
                                col,
                                &None,
                            ),
                        );
                    },
                }
            }
        } else if c == '"' {
            proof {
                lemma_until_bounds(chars@, cur + 1, CharPred::NotQuote);
            }
            let value = until(&chars, cur + 1, CharPred::NotQuote);
            let blen = value.0.as_str().len();
            cur = value.1;
            col = crate::text::sat_add(col, blen);
            if cur >= chars.len() {
                return Err(
                    Error::new(
                        ErrorKind::LexError,
                        "Unterminated string".to_owned(),
                        line,
                        col,
                        &None,
                    ),
                );
            }
            cur += 1;
            col = crate::text::sat_add(col, 1);
            let t = Token { kind: TokenKind::String, value: TokenValue::String(value.0), line, col };
            let ghost tm = t@;
            proof {
                lemma_toks_push(tokens@, t);
            }
            tokens.push(t);
            proof {
                let rest = spec_lex_from(chars@, cur as int, line, col);
                assert(spec_lex_from(chars@, pc, pl, pcol) == lex_join(seq![tm], rest));
                lemma_join_cons(toks_view(pre_toks), tm, rest);
            }
        } else if c == '<' {
            proof {
                lemma_until_bounds(chars@, cur + 1, CharPred::NotGt);
            }
            let value = until(&chars, cur + 1, CharPred::NotGt);
            let blen = value.0.as_str().len();
            cur = value.1;
            col = crate::text::sat_add(col, blen);
            if cur >= chars.len() {
                return Err(
                    Error::new(
                        ErrorKind::LexError,
                        "Unterminated debug symbol".to_owned(),
                        line,
                        col,
                        &None,
                    ),
                );
            }
            cur += 1;
            col = crate::text::sat_add(col, 1);
            let body = value.0.as_str();
            let n = body.unicode_len();
            let i1 = find_colon_exec(body, 0);
            let i2 = if i1 < n {
                find_colon_exec(body, i1 + 1)
            } else {
                n
            };
            let i3 = if i2 < n {
                find_colon_exec(body, i2 + 1)
            } else {
                n
            };
            if i1 >= n || i2 >= n || i3 < n {
                return Err(
                    Error::new(
                        ErrorKind::LexError,
                        "Invalid debug symbol".to_owned(),
                        line,
                        col,
                        &None,
                    ),
                );
            }
            let db_path = body.substring_char(0, i1).to_owned();
            let db_line = match crate::text::parse_usize(body.substring_char(i1 + 1, i2)) {
                Some(v) => v,
                None => {
                    return Err(
                        Error::new(
                            ErrorKind::LexError,
                            "Invalid line number".to_owned(),
                            line,
                            col,
                            &None,
                        ),
                    );
                },
            };
            let db_col = match crate::text::parse_usize(body.substring_char(i2 + 1, n)) {
                Some(v) => v,
                None => {
                    return Err(
                        Error::new(
                            ErrorKind::LexError,
                            "Invalid column number".to_owned(),
                            line,
                            col,
                            &None,
                        ),
                    );
                },
            };
            let t = Token {
                kind: TokenKind::DebugSymbol,
                value: TokenValue::DebugSymbol(
                    DebugSymbol { path: db_path, line: db_line, col: db_col },
                ),
                line,
                col,
            };
            let ghost tm = t@;
            proof {
                lemma_toks_push(tokens@, t);
            }
            tokens.push(t);
            proof {
                let rest = spec_lex_from(chars@, cur as int, line, col);
                assert(spec_lex_from(chars@, pc, pl, pcol) == lex_join(seq![tm], rest));
                lemma_join_cons(toks_view(pre_toks), tm, rest);
            }
        } else if could_be(c, ":,") {
            proof {
                reveal_strlit(":,");
            }
            let t = Token { kind: TokenKind::Punctuation, value: TokenValue::Punctuation(c), line, col };
            let ghost tm = t@;
            proof {
                lemma_toks_push(tokens@, t);
            }
            tokens.push(t);
            cur += 1;
            col = crate::text::sat_add(col, 1);
            proof {
                let rest = spec_lex_from(chars@, cur as int, line, col);
                assert(spec_lex_from(chars@, pc, pl, pcol) == lex_join(seq![tm], rest));
                lemma_join_cons(toks_view(pre_toks), tm, rest);
            }
        } else if c == '\n' {
            line = crate::text::sat_add(line, 1);
            cur += 1;
            col = 0;
        } else if c.is_whitespace() {
            cur += 1;
            col = crate::text::sat_add(col, 1);
        } else {
            let mut msg = "Unexpected character: '".to_owned();
            push_char(&mut msg, c);
            msg.append("'");
            return Err(Error::new(ErrorKind::LexError, msg, line, col, &None));
        }
    }
    proof {
        assert(toks_view(tokens@) + Seq::<TokenModel>::empty() =~= toks_view(tokens@));
    }
    Ok(tokens)
}

} // verus!
