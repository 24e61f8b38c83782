//! The source grammar: turns assembly text into the statement sequence
//! that the pipeline consumes.  Opcode invocations end with `;` and may
//! carry a `!` indirect marker; labels are declared `name:`; macros are
//! declared `.macro name { ... };` and invoked `$name;`; constants are
//! declared `.const name = literal;` and referenced `$name`; `@name`
//! names a jump target; `//` starts a line comment.
use vstd::prelude::*;

use crate::ast::{tag_from_name, AsmError, Operand, OperandV, Statement, StatementV};
use crate::compiler::{wf_statement, wf_stmt_seq};
use crate::instruction::wf_operand;
use crate::opcodes::{str_eq, Opcode};
use crate::utils::{is_hex_digit, ok_escapes, spec_unescape, str_to_chars, unescape_string, wf_hex_literal};

verus! {

broadcast use vstd::std_specs::vec::group_vec_axioms, vstd::seq::group_seq_axioms, crate::ast::lemma_stmt_seq_dv;

/// One lexical token of the assembly grammar.
pub enum Token {
    Ident(String),
    DecLit(u64),
    HexLit(String),
    StrLit(String),
    Semi,
    Colon,
    LBrace,
    RBrace,
    Equals,
    Bang,
    Dollar,
    At,
    Dot,
}

/// The mathematical view of a `Token`.
pub enum TokenV {
    Ident(Seq<char>),
    DecLit(u64),
    HexLit(Seq<char>),
    StrLit(Seq<char>),
    Semi,
    Colon,
    LBrace,
    RBrace,
    Equals,
    Bang,
    Dollar,
    At,
    Dot,
}

impl DeepView for Token {
    type V = TokenV;

    open spec fn deep_view(&self) -> TokenV {
        match self {
            Token::Ident(s) => TokenV::Ident(s@),
            Token::DecLit(v) => TokenV::DecLit(*v),
            Token::HexLit(s) => TokenV::HexLit(s@),
            Token::StrLit(s) => TokenV::StrLit(s@),
            Token::Semi => TokenV::Semi,
            Token::Colon => TokenV::Colon,
            Token::LBrace => TokenV::LBrace,
            Token::RBrace => TokenV::RBrace,
            Token::Equals => TokenV::Equals,
            Token::Bang => TokenV::Bang,
            Token::Dollar => TokenV::Dollar,
            Token::At => TokenV::At,
            Token::Dot => TokenV::Dot,
        }
    }
}

/// The deep view of a token list indexes pointwise.
pub broadcast proof fn lemma_tokens_dv(v: Vec<Token>)
    ensures
        #[trigger] v.deep_view().len() == v@.len(),
        forall|i: int| 0 <= i < v@.len() ==> #[trigger] v.deep_view()[i] == v@[i].deep_view(),
{
}

/// A token whose hex literal, if it carries one, is a well-formed digit
/// string.
pub open spec fn wf_token(t: TokenV) -> bool {
    match t {
        TokenV::HexLit(s) => wf_hex_literal(s),
        _ => true,
    }
}

pub open spec fn wf_tokens(toks: Seq<TokenV>) -> bool {
    forall|i: int| 0 <= i < toks.len() ==> wf_token(#[trigger] toks[i])
}

pub open spec fn is_ws(c: char) -> bool {
    c == ' ' || c == '\t' || c == '\r' || c == '\n'
}

fn is_ws_exec(c: char) -> (r: bool)
    ensures
        r == is_ws(c),
{
    c == ' ' || c == '\t' || c == '\r' || c == '\n'
}

pub open spec fn is_digit(c: char) -> bool {
    48 <= c as u32 <= 57
}

fn is_digit_exec(c: char) -> (r: bool)
    ensures
        r == is_digit(c),
{
    let u = c as u32;
    48 <= u && u <= 57
}

pub open spec fn is_ident_start(c: char) -> bool {
    (97 <= c as u32 <= 122) || (65 <= c as u32 <= 90) || c as u32 == 95
}

fn is_ident_start_exec(c: char) -> (r: bool)
    ensures
        r == is_ident_start(c),
{
    let u = c as u32;
    (97 <= u && u <= 122) || (65 <= u && u <= 90) || u == 95
}

pub open spec fn is_ident_char(c: char) -> bool {
    is_ident_start(c) || is_digit(c)
}

fn is_ident_char_exec(c: char) -> (r: bool)
    ensures
        r == is_ident_char(c),
{
    is_ident_start_exec(c) || is_digit_exec(c)
}

fn is_hex_digit_exec(c: char) -> (r: bool)
    ensures
        r == is_hex_digit(c),
{
    match c {
        '0' => true,
        '1' => true,
        '2' => true,
        '3' => true,
        '4' => true,
        '5' => true,
        '6' => true,
        '7' => true,
        '8' => true,
        '9' => true,
        'a' => true,
        'b' => true,
        'c' => true,
        'd' => true,
        'e' => true,
        'f' => true,
        'A' => true,
        'B' => true,
        'C' => true,
        'D' => true,
        'E' => true,
        'F' => true,
        _ => false,
    }
}


// ---------------------------------------------------------------------
// the tokenizer's specification
// ---------------------------------------------------------------------
/// The first position at or after `j` that ends a line comment.
pub open spec fn scan_comment_end(cs: Seq<char>, j: int) -> int
    decreases cs.len() - j,
{
    if j >= cs.len() || cs[j] == '\n' {
        j
    } else {
        scan_comment_end(cs, j + 1)
    }
}

/// The first position at or after `j` that holds no hex digit.
pub open spec fn scan_hex_end(cs: Seq<char>, j: int) -> int
    decreases cs.len() - j,
{
    if j >= cs.len() || !is_hex_digit(cs[j]) {
        j
    } else {
        scan_hex_end(cs, j + 1)
    }
}

/// The first position at or after `j` that holds no decimal digit.
pub open spec fn scan_dec_end(cs: Seq<char>, j: int) -> int
    decreases cs.len() - j,
{
    if j >= cs.len() || !is_digit(cs[j]) {
        j
    } else {
        scan_dec_end(cs, j + 1)
    }
}

/// The first position at or after `j` that holds no identifier character.
pub open spec fn scan_ident_end(cs: Seq<char>, j: int) -> int
    decreases cs.len() - j,
{
    if j >= cs.len() || !is_ident_char(cs[j]) {
        j
    } else {
        scan_ident_end(cs, j + 1)
    }
}

/// The position of the quote that closes a string literal whose body
/// starts at `j`, honoring backslash escapes; `None` when the literal
/// never closes.
pub open spec fn scan_string_end(cs: Seq<char>, j: int) -> Option<int>
    decreases cs.len() - j,
{
    if j >= cs.len() {
        None
    } else if cs[j] == '"' {
        Some(j)
    } else if cs[j] == '\\' {
        if j + 1 >= cs.len() {
            None
        } else {
            scan_string_end(cs, j + 2)
        }
    } else {
        scan_string_end(cs, j + 1)
    }
}

pub proof fn lemma_scan_comment_end_bounds(cs: Seq<char>, j: int)
    ensures
        scan_comment_end(cs, j) >= j,
        j <= cs.len() ==> scan_comment_end(cs, j) <= cs.len(),
    decreases cs.len() - j,
{
    if !(j >= cs.len() || cs[j] == '\n') {
        lemma_scan_comment_end_bounds(cs, j + 1);
    }
}

pub proof fn lemma_scan_hex_end_bounds(cs: Seq<char>, j: int)
    ensures
        scan_hex_end(cs, j) >= j,
        j <= cs.len() ==> scan_hex_end(cs, j) <= cs.len(),
    decreases cs.len() - j,
{
    if !(j >= cs.len() || !is_hex_digit(cs[j])) {
        lemma_scan_hex_end_bounds(cs, j + 1);
    }
}

pub proof fn lemma_scan_dec_end_bounds(cs: Seq<char>, j: int)
    ensures
        scan_dec_end(cs, j) >= j,
        j <= cs.len() ==> scan_dec_end(cs, j) <= cs.len(),
    decreases cs.len() - j,
{
    if !(j >= cs.len() || !is_digit(cs[j])) {
        lemma_scan_dec_end_bounds(cs, j + 1);
    }
}

pub proof fn lemma_scan_ident_end_bounds(cs: Seq<char>, j: int)
    ensures
        scan_ident_end(cs, j) >= j,
        j <= cs.len() ==> scan_ident_end(cs, j) <= cs.len(),
    decreases cs.len() - j,
{
    if !(j >= cs.len() || !is_ident_char(cs[j])) {
        lemma_scan_ident_end_bounds(cs, j + 1);
    }
}

pub proof fn lemma_scan_string_end_bounds(cs: Seq<char>, j: int)
    ensures
        match scan_string_end(cs, j) {
            Some(r) => r >= j && r < cs.len(),
            None => true,
        },
    decreases cs.len() - j,
{
    if j >= cs.len() {
    } else if cs[j] == '"' {
    } else if cs[j] == '\\' {
        if j + 1 < cs.len() {
            lemma_scan_string_end_bounds(cs, j + 2);
        }
    } else {
        lemma_scan_string_end_bounds(cs, j + 1);
    }
}

/// The value of a decimal digit string.
pub open spec fn dec_val(s: Seq<char>) -> nat
    decreases s.len(),
{
    if s.len() == 0 {
        0
    } else {
        dec_val(s.drop_last()) * 10 + (if is_digit(s.last()) {
            (s.last() as u32 - 48) as nat
        } else {
            0
        })
    }
}

/// Dropping trailing digits never increases the value.
pub proof fn lemma_dec_val_take_le(s: Seq<char>, k: int)
    requires
        0 <= k <= s.len(),
    ensures
        dec_val(s.take(k)) <= dec_val(s),
    decreases s.len(),
{
    if k == s.len() {
        assert(s.take(k) =~= s);
    } else {
        assert(s.drop_last().take(k) =~= s.take(k));
        lemma_dec_val_take_le(s.drop_last(), k);
    }
}

/// Prepends one token to a tokenization outcome.
pub open spec fn tok_cons(t: TokenV, r: Result<Seq<TokenV>, AsmError>) -> Result<
    Seq<TokenV>,
    AsmError,
> {
    match r {
        Ok(ts) => Ok(seq![t] + ts),
        Err(e) => Err(e),
    }
}

/// What the tokenizer produces from position `i` on.
pub open spec fn spec_tokenize(cs: Seq<char>, i: int) -> Result<Seq<TokenV>, AsmError>
    decreases cs.len() - i,
        via spec_tokenize_decreases
{
    if i < 0 || i >= cs.len() {
        Ok(Seq::empty())
    } else {
        let c = cs[i];
        if is_ws(c) {
            spec_tokenize(cs, i + 1)
        } else if c == '/' {
            if i + 1 < cs.len() && cs[i + 1] == '/' {
                spec_tokenize(cs, scan_comment_end(cs, i + 2))
            } else {
                Err(AsmError::SyntaxError)
            }
        } else if c == ';' {
            tok_cons(TokenV::Semi, spec_tokenize(cs, i + 1))
        } else if c == ':' {
            tok_cons(TokenV::Colon, spec_tokenize(cs, i + 1))
        } else if c == '{' {
            tok_cons(TokenV::LBrace, spec_tokenize(cs, i + 1))
        } else if c == '}' {
            tok_cons(TokenV::RBrace, spec_tokenize(cs, i + 1))
        } else if c == '=' {
            tok_cons(TokenV::Equals, spec_tokenize(cs, i + 1))
        } else if c == '!' {
            tok_cons(TokenV::Bang, spec_tokenize(cs, i + 1))
        } else if c == '$' {
            tok_cons(TokenV::Dollar, spec_tokenize(cs, i + 1))
        } else if c == '@' {
            tok_cons(TokenV::At, spec_tokenize(cs, i + 1))
        } else if c == '.' {
            tok_cons(TokenV::Dot, spec_tokenize(cs, i + 1))
        } else if c == '"' {
            match scan_string_end(cs, i + 1) {
                None => Err(AsmError::SyntaxError),
                Some(close) => tok_cons(
                    TokenV::StrLit(spec_unescape(cs.subrange(i + 1, close))),
                    spec_tokenize(cs, close + 1),
                ),
            }
        } else if is_digit(c) {
            if c == '0' && i + 1 < cs.len() && cs[i + 1] == 'x' {
                let j = scan_hex_end(cs, i + 2);
                if j == i + 2 {
                    Err(AsmError::SyntaxError)
                } else {
                    tok_cons(TokenV::HexLit(cs.subrange(i, j)), spec_tokenize(cs, j))
                }
            } else {
                let j = scan_dec_end(cs, i + 1);
                if dec_val(cs.subrange(i, j)) >= 0x1_0000_0000_0000_0000 {
                    Err(AsmError::SyntaxError)
                } else {
                    tok_cons(
                        TokenV::DecLit(dec_val(cs.subrange(i, j)) as u64),
                        spec_tokenize(cs, j),
                    )
                }
            }
        } else if is_ident_start(c) {
            let j = scan_ident_end(cs, i + 1);
            tok_cons(TokenV::Ident(cs.subrange(i, j)), spec_tokenize(cs, j))
        } else {
            Err(AsmError::SyntaxError)
        }
    }
}

#[via_fn]
proof fn spec_tokenize_decreases(cs: Seq<char>, i: int) {
    lemma_scan_comment_end_bounds(cs, i + 2);
    lemma_scan_hex_end_bounds(cs, i + 2);
    lemma_scan_dec_end_bounds(cs, i + 1);
    lemma_scan_ident_end_bounds(cs, i + 1);
    lemma_scan_string_end_bounds(cs, i + 1);
}

/// The running relation of the tokenizer: what was already produced,
/// continued from position `i`, is the whole tokenization.
pub open spec fn tokenize_inv(cs: Seq<char>, done: Seq<TokenV>, i: int) -> bool {
    match spec_tokenize(cs, i) {
        Ok(rest) => spec_tokenize(cs, 0) == Ok::<Seq<TokenV>, AsmError>(done + rest),
        Err(e) => spec_tokenize(cs, 0) == Err::<Seq<TokenV>, AsmError>(e),
    }
}

proof fn lemma_tokenize_inv_skip(cs: Seq<char>, done: Seq<TokenV>, i0: int, i1: int)
    requires
        tokenize_inv(cs, done, i0),
        spec_tokenize(cs, i0) == spec_tokenize(cs, i1),
    ensures
        tokenize_inv(cs, done, i1),
{
}

proof fn lemma_tokenize_inv_step(
    cs: Seq<char>,
    done: Seq<TokenV>,
    i0: int,
    i1: int,
    tv: TokenV,
)
    requires
        tokenize_inv(cs, done, i0),
        spec_tokenize(cs, i0) == tok_cons(tv, spec_tokenize(cs, i1)),
    ensures
        tokenize_inv(cs, done.push(tv), i1),
{
    match spec_tokenize(cs, i1) {
        Ok(rest) => {
            assert(done + (seq![tv] + rest) =~= done.push(tv) + rest);
        },
        Err(_) => {},
    }
}

/// Splits the source text into tokens; any character that fits no token
/// is a syntax error.
fn tokenize(input: &str) -> (r: Result<Vec<Token>, AsmError>)
    ensures
        match spec_tokenize(input@, 0) {
            Ok(ts) => r is Ok && r->Ok_0.deep_view() == ts,
            Err(e) => r == Err::<Vec<Token>, AsmError>(e),
        },
        r is Ok ==> wf_tokens(r->Ok_0.deep_view()),
        r is Err ==> r == Err::<Vec<Token>, AsmError>(AsmError::SyntaxError),
{
    let ghost cs = input@;
    let chars = str_to_chars(input);
    let n = chars.len();
    let mut toks: Vec<Token> = Vec::new();
    let mut i: usize = 0;
    proof {
        match spec_tokenize(cs, 0) {
            Ok(rest) => {
                assert(toks.deep_view() =~= Seq::<TokenV>::empty());
                assert(Seq::<TokenV>::empty() + rest =~= rest);
            },
            Err(_) => {},
        }
    }
    while i < n
        invariant
            i <= n,
            n == chars@.len(),
            chars@ == cs,
            cs == input@,
            wf_tokens(toks.deep_view()),
            tokenize_inv(cs, toks.deep_view(), i as int),
        decreases n - i,
    {
        let ghost t0 = toks;
        let c = chars[i];
        if is_ws_exec(c) {
            proof {
                lemma_tokenize_inv_skip(cs, toks.deep_view(), i as int, i + 1);
            }
            i += 1;
        } else if c == '/' {
            if i + 1 < n && chars[i + 1] == '/' {
                // line comment
                let mut j = i + 2;
                while j < n && chars[j] != '\n'
                    invariant
                        i < j <= n,
                        n == chars@.len(),
                        chars@ == cs,
                        scan_comment_end(cs, i + 2) == scan_comment_end(cs, j as int),
                    decreases n - j,
                {
                    j += 1;
                }
                proof {
                    assert(scan_comment_end(cs, j as int) == j);
                    lemma_tokenize_inv_skip(cs, toks.deep_view(), i as int, j as int);
                }
                i = j;
            } else {
                proof {
                    assert(spec_tokenize(cs, i as int) == Err::<Seq<TokenV>, AsmError>(
                        AsmError::SyntaxError,
                    ));
                }
                return Err(AsmError::SyntaxError);
            }
        } else if c == ';' {
            proof {
                lemma_tokenize_inv_step(cs, toks.deep_view(), i as int, i + 1, TokenV::Semi);
            }
            toks.push(Token::Semi);
            proof {
                assert(toks.deep_view() =~= t0.deep_view().push(TokenV::Semi));
            }
            i += 1;
        } else if c == ':' {
            proof {
                lemma_tokenize_inv_step(cs, toks.deep_view(), i as int, i + 1, TokenV::Colon);
            }
            toks.push(Token::Colon);
            proof {
                assert(toks.deep_view() =~= t0.deep_view().push(TokenV::Colon));
            }
            i += 1;
        } else if c == '{' {
            proof {
                lemma_tokenize_inv_step(cs, toks.deep_view(), i as int, i + 1, TokenV::LBrace);
            }
            toks.push(Token::LBrace);
            proof {
                assert(toks.deep_view() =~= t0.deep_view().push(TokenV::LBrace));
            }
            i += 1;
        } else if c == '}' {
            proof {
                lemma_tokenize_inv_step(cs, toks.deep_view(), i as int, i + 1, TokenV::RBrace);
            }
            toks.push(Token::RBrace);
            proof {
                assert(toks.deep_view() =~= t0.deep_view().push(TokenV::RBrace));
            }
            i += 1;
        } else if c == '=' {
            proof {
                lemma_tokenize_inv_step(cs, toks.deep_view(), i as int, i + 1, TokenV::Equals);
            }
            toks.push(Token::Equals);
            proof {
                assert(toks.deep_view() =~= t0.deep_view().push(TokenV::Equals));
            }
            i += 1;
        } else if c == '!' {
            proof {
                lemma_tokenize_inv_step(cs, toks.deep_view(), i as int, i + 1, TokenV::Bang);
            }
            toks.push(Token::Bang);
            proof {
                assert(toks.deep_view() =~= t0.deep_view().push(TokenV::Bang));
            }
            i += 1;
        } else if c == '$' {
            proof {
                lemma_tokenize_inv_step(cs, toks.deep_view(), i as int, i + 1, TokenV::Dollar);
            }
            toks.push(Token::Dollar);
            proof {
                assert(toks.deep_view() =~= t0.deep_view().push(TokenV::Dollar));
            }
            i += 1;
        } else if c == '@' {
            proof {
                lemma_tokenize_inv_step(cs, toks.deep_view(), i as int, i + 1, TokenV::At);
            }
            toks.push(Token::At);
            proof {
                assert(toks.deep_view() =~= t0.deep_view().push(TokenV::At));
            }
            i += 1;
        } else if c == '.' {
            proof {
                lemma_tokenize_inv_step(cs, toks.deep_view(), i as int, i + 1, TokenV::Dot);
            }
            toks.push(Token::Dot);
            proof {
                assert(toks.deep_view() =~= t0.deep_view().push(TokenV::Dot));
            }
            i += 1;
        } else if c == '"' {
            // a quoted string with backslash escapes
            let start = i;
            let mut j = i + 1;
            let ghost inner_start = i + 1;
            proof {
                assert(ok_escapes(cs.subrange(inner_start as int, inner_start as int)));
            }
            while j < n && chars[j] != '"'
                invariant
                    inner_start <= j <= n,
                    inner_start == start + 1,
                    start == i,
                    i < n,
                    n == chars@.len(),
                    chars@ == cs,
                    cs == input@,
                    cs[i as int] == '"',
                    !is_ws(cs[i as int]),
                    scan_string_end(cs, inner_start as int) == scan_string_end(cs, j as int),
                    ok_escapes(cs.subrange(inner_start as int, j as int)),
                    tokenize_inv(cs, toks.deep_view(), i as int),
                decreases n - j,
            {
                let ghost pre = cs.subrange(inner_start as int, j as int);
                if chars[j] == '\\' {
                    if j + 1 >= n {
                        proof {
                            assert(scan_string_end(cs, j as int) is None);
                            assert(spec_tokenize(cs, i as int) == Err::<Seq<TokenV>, AsmError>(
                                AsmError::SyntaxError,
                            ));
                        }
                        return Err(AsmError::SyntaxError);
                    }
                    proof {
                        let pair = cs.subrange(j as int, j + 2);
                        assert(pair.len() == 2 && pair[0] == '\\');
                        assert(pair.skip(2) =~= Seq::<char>::empty());
                        assert(ok_escapes(Seq::<char>::empty()));
                        assert(ok_escapes(pair));
                        crate::utils::lemma_ok_escapes_app(pre, pair);
                        assert(pre + pair =~= cs.subrange(inner_start as int, j + 2));
                    }
                    j += 2;
                } else {
                    proof {
                        let single = cs.subrange(j as int, j + 1);
                        assert(single.len() == 1 && single[0] != '\\');
                        assert(single.skip(1) =~= Seq::<char>::empty());
                        assert(ok_escapes(Seq::<char>::empty()));
                        assert(ok_escapes(single));
                        crate::utils::lemma_ok_escapes_app(pre, single);
                        assert(pre + single =~= cs.subrange(inner_start as int, j + 1));
                    }
                    j += 1;
                }
            }
            if j >= n {
                proof {
                    assert(scan_string_end(cs, j as int) is None);
                    assert(spec_tokenize(cs, i as int) == Err::<Seq<TokenV>, AsmError>(
                        AsmError::SyntaxError,
                    ));
                }
                return Err(AsmError::SyntaxError);
            }
            // chars[j] == '"'
            let lit = input.substring_char(start, j + 1);
            proof {
                assert(scan_string_end(cs, j as int) == Some(j as int));
                assert(lit@ == cs.subrange(start as int, j + 1));
                assert(lit@.len() >= 2);
                assert(lit@[0] == '"');
                assert(lit@[lit@.len() - 1] == '"');
                assert(lit@.subrange(1, lit@.len() - 1) =~= cs.subrange(
                    inner_start as int,
                    j as int,
                ));
            }
            let unescaped = unescape_string(lit);
            proof {
                lemma_tokenize_inv_step(
                    cs,
                    toks.deep_view(),
                    i as int,
                    j + 1,
                    TokenV::StrLit(unescaped@),
                );
            }
            let ghost uv = unescaped@;
            toks.push(Token::StrLit(unescaped));
            proof {
                assert(toks.deep_view() =~= t0.deep_view().push(TokenV::StrLit(uv)));
            }
            i = j + 1;
        } else if is_digit_exec(c) {
            if c == '0' && i + 1 < n && chars[i + 1] == 'x' {
                // a hex literal, kept with its prefix
                let start = i;
                let mut j = i + 2;
                while j < n && is_hex_digit_exec(chars[j])
                    invariant
                        start + 2 <= j <= n,
                        start == i,
                        i + 1 < n,
                        n == chars@.len(),
                        chars@ == cs,
                        cs == input@,
                        cs[i as int] == '0',
                        cs[i + 1] == 'x',
                        scan_hex_end(cs, start + 2) == scan_hex_end(cs, j as int),
                        forall|p: int| start + 2 <= p < j ==> is_hex_digit(#[trigger] cs[p]),
                        tokenize_inv(cs, toks.deep_view(), i as int),
                    decreases n - j,
                {
                    j += 1;
                }
                proof {
                    assert(scan_hex_end(cs, j as int) == j);
                }
                if j == i + 2 {
                    proof {
                        assert(spec_tokenize(cs, i as int) == Err::<Seq<TokenV>, AsmError>(
                            AsmError::SyntaxError,
                        ));
                    }
                    return Err(AsmError::SyntaxError);
                }
                let lit = input.substring_char(start, j);
                proof {
                    assert(lit@ == cs.subrange(start as int, j as int));
                    assert(lit@[0] == '0' && lit@[1] == 'x');
                    let stripped = crate::utils::strip_hex_prefix(lit@);
                    assert(stripped =~= cs.subrange(start + 2, j as int));
                    assert(forall|p: int|
                        0 <= p < stripped.len() ==> is_hex_digit(#[trigger] stripped[p]));
                    assert(wf_hex_literal(lit@));
                }
                let s = lit.to_owned();
                proof {
                    lemma_tokenize_inv_step(
                        cs,
                        toks.deep_view(),
                        i as int,
                        j as int,
                        TokenV::HexLit(s@),
                    );
                }
                let ghost sv = s@;
                toks.push(Token::HexLit(s));
                proof {
                    assert(toks.deep_view() =~= t0.deep_view().push(TokenV::HexLit(sv)));
                }
                i = j;
            } else {
                // a decimal literal
                proof {
                    assert(48 <= c as u32 <= 57);
                    assert(cs.subrange(i as int, i + 1).drop_last() =~= Seq::<char>::empty());
                    assert(cs.subrange(i as int, i + 1).last() == c);
                    assert(dec_val(Seq::<char>::empty()) == 0);
                }
                let mut value: u64 = (c as u32 as u64) - 48;
                let mut j = i + 1;
                while j < n && is_digit_exec(chars[j])
                    invariant
                        i < j <= n,
                        n == chars@.len(),
                        chars@ == cs,
                        cs == input@,
                        is_digit(cs[i as int]),
                        !(cs[i as int] == '0' && i + 1 < n && cs[i + 1] == 'x'),
                        !is_ws(cs[i as int]),
                        scan_dec_end(cs, i + 1) == scan_dec_end(cs, j as int),
                        value == dec_val(cs.subrange(i as int, j as int)),
                        tokenize_inv(cs, toks.deep_view(), i as int),
                    decreases n - j,
                {
                    proof {
                        assert(48 <= chars@[j as int] as u32 <= 57);
                        assert(cs.subrange(i as int, j + 1).drop_last() =~= cs.subrange(
                            i as int,
                            j as int,
                        ));
                        assert(cs.subrange(i as int, j + 1).last() == cs[j as int]);
                    }
                    let d: u64 = (chars[j] as u32 as u64) - 48;
                    if value > (u64::MAX - d) / 10 {
                        // the literal does not fit the 64-bit value domain
                        proof {
                            assert(value * 10 + d > u64::MAX) by (nonlinear_arith)
                                requires
                                    0 <= d <= 9,
                                    value > (u64::MAX - d) / 10,
                            ;
                            let end = scan_dec_end(cs, i + 1);
                            lemma_scan_dec_end_bounds(cs, j as int);
                            assert(scan_dec_end(cs, j as int) == scan_dec_end(cs, j + 1));
                            lemma_scan_dec_end_bounds(cs, j + 1);
                            assert(end >= j + 1);
                            assert(cs.subrange(i as int, end).take(j + 1 - i) =~= cs.subrange(
                                i as int,
                                j + 1,
                            ));
                            lemma_dec_val_take_le(cs.subrange(i as int, end), j + 1 - i);
                            assert(dec_val(cs.subrange(i as int, end)) >= 0x1_0000_0000_0000_0000);
                            assert(spec_tokenize(cs, i as int) == Err::<Seq<TokenV>, AsmError>(
                                AsmError::SyntaxError,
                            ));
                        }
                        return Err(AsmError::SyntaxError);
                    }
                    proof {
                        assert(value * 10 + d <= u64::MAX) by (nonlinear_arith)
                            requires
                                0 <= d <= 9,
                                0 <= value <= (u64::MAX - d) / 10,
                        ;
                    }
                    value = value * 10 + d;
                    j += 1;
                }
                proof {
                    assert(scan_dec_end(cs, j as int) == j);
                    assert(dec_val(cs.subrange(i as int, j as int)) < 0x1_0000_0000_0000_0000);
                    lemma_tokenize_inv_step(
                        cs,
                        toks.deep_view(),
                        i as int,
                        j as int,
                        TokenV::DecLit(value),
                    );
                }
                toks.push(Token::DecLit(value));
                proof {
                    assert(toks.deep_view() =~= t0.deep_view().push(TokenV::DecLit(value)));
                }
                i = j;
            }
        } else if is_ident_start_exec(c) {
            let start = i;
            let mut j = i + 1;
            while j < n && is_ident_char_exec(chars[j])
                invariant
                    start == i,
                    start < j <= n,
                    n == chars@.len(),
                    chars@ == cs,
                    cs == input@,
                    scan_ident_end(cs, start + 1) == scan_ident_end(cs, j as int),
                decreases n - j,
            {
                j += 1;
            }
            let name = input.substring_char(start, j);
            proof {
                assert(scan_ident_end(cs, j as int) == j);
                assert(name@ == cs.subrange(start as int, j as int));
                lemma_tokenize_inv_step(
                    cs,
                    toks.deep_view(),
                    i as int,
                    j as int,
                    TokenV::Ident(name@),
                );
            }
            let owned_name = name.to_owned();
            let ghost nv = owned_name@;
            toks.push(Token::Ident(owned_name));
            proof {
                assert(toks.deep_view() =~= t0.deep_view().push(TokenV::Ident(nv)));
            }
            i = j;
        } else {
            proof {
                assert(spec_tokenize(cs, i as int) == Err::<Seq<TokenV>, AsmError>(
                    AsmError::SyntaxError,
                ));
            }
            return Err(AsmError::SyntaxError);
        }
        proof {
            assert forall|q: int| 0 <= q < toks.deep_view().len() implies wf_token(
                #[trigger] toks.deep_view()[q],
            ) by {
                assert(toks.deep_view()[q] == toks@[q].deep_view());
                if q < t0@.len() {
                    assert(t0.deep_view()[q] == t0@[q].deep_view());
                    assert(toks@[q] == t0@[q]);
                    assert(wf_token(t0.deep_view()[q]));
                }
            };
        }
    }
    proof {
        assert(spec_tokenize(cs, i as int) == Ok::<Seq<TokenV>, AsmError>(Seq::empty()));
        assert(toks.deep_view() + Seq::<TokenV>::empty() =~= toks.deep_view());
    }
    Ok(toks)
}


// ---------------------------------------------------------------------
// the parser's specification
// ---------------------------------------------------------------------
/// An outcome of the token-level parser: a parse with its end position, a
/// failure, or an exhausted descent budget (which a budget as large as
/// the token list never produces; see `lemma_sp_not_spent`).
pub enum ParseOut<T> {
    Parsed(T, int),
    Failed(AsmError),
    Spent,
}

/// The operand list of one opcode statement, from `pos` up to and
/// including its closing semicolon, accumulated onto `ops` and `lbl`.
pub open spec fn sp_operands(
    ts: Seq<TokenV>,
    pos: int,
    op: Opcode,
    ind: bool,
    ops: Seq<OperandV>,
    lbl: Option<Seq<char>>,
) -> Result<(StatementV, int), AsmError>
    decreases ts.len() - pos,
{
    if pos < 0 || pos >= ts.len() {
        Err(AsmError::SyntaxError)
    } else {
        match ts[pos] {
            TokenV::Semi => Ok((StatementV::Op(op, ind, ops, lbl), pos + 1)),
            TokenV::DecLit(v) => sp_operands(ts, pos + 1, op, ind, ops.push(OperandV::Decimal(v)), lbl),
            TokenV::HexLit(s) => sp_operands(ts, pos + 1, op, ind, ops.push(OperandV::Hex(s)), lbl),
            TokenV::Ident(w) => match crate::ast::spec_tag_from_name(w) {
                Some(t) => sp_operands(ts, pos + 1, op, ind, ops.push(OperandV::Tag(t)), lbl),
                None => Err(AsmError::SyntaxError),
            },
            TokenV::Dollar => if pos + 1 < ts.len() {
                match ts[pos + 1] {
                    TokenV::Ident(w) => sp_operands(
                        ts,
                        pos + 2,
                        op,
                        ind,
                        ops.push(OperandV::Variable(w)),
                        lbl,
                    ),
                    _ => Err(AsmError::SyntaxError),
                }
            } else {
                Err(AsmError::SyntaxError)
            },
            TokenV::At => if pos + 1 < ts.len() {
                match ts[pos + 1] {
                    TokenV::Ident(w) => sp_operands(ts, pos + 2, op, ind, ops, Some(w)),
                    _ => Err(AsmError::SyntaxError),
                }
            } else {
                Err(AsmError::SyntaxError)
            },
            _ => Err(AsmError::SyntaxError),
        }
    }
}

/// One statement starting at `pos`; `fuel` bounds the macro-body nesting
/// the parse may descend into.
pub open spec fn sp_stmt(ts: Seq<TokenV>, pos: int, fuel: nat) -> ParseOut<StatementV>
    decreases fuel, 0nat,
{
    if pos < 0 || pos >= ts.len() {
        ParseOut::Failed(AsmError::SyntaxError)
    } else {
        match ts[pos] {
            TokenV::Ident(name) => {
                if pos + 1 < ts.len() && ts[pos + 1] is Colon {
                    ParseOut::Parsed(StatementV::Label(name), pos + 2)
                } else {
                    match Opcode::spec_from_mnemonic(name) {
                        None => ParseOut::Failed(AsmError::SyntaxError),
                        Some(op) => {
                            let ind = pos + 1 < ts.len() && ts[pos + 1] is Bang;
                            let start = if ind {
                                pos + 2
                            } else {
                                pos + 1
                            };
                            match sp_operands(ts, start, op, ind, Seq::empty(), None) {
                                Ok((st, next)) => ParseOut::Parsed(st, next),
                                Err(e) => ParseOut::Failed(e),
                            }
                        },
                    }
                }
            },
            TokenV::Dollar => if ts.len() - pos < 3 {
                ParseOut::Failed(AsmError::SyntaxError)
            } else {
                match ts[pos + 1] {
                    TokenV::Ident(w) => match ts[pos + 2] {
                        TokenV::Semi => ParseOut::Parsed(StatementV::MacroInvocation(w), pos + 3),
                        _ => ParseOut::Failed(AsmError::SyntaxError),
                    },
                    _ => ParseOut::Failed(AsmError::SyntaxError),
                }
            },
            TokenV::Dot => if ts.len() - pos < 2 {
                ParseOut::Failed(AsmError::SyntaxError)
            } else {
                match ts[pos + 1] {
                    TokenV::Ident(w) => if w == "macro"@ {
                        if ts.len() - pos < 4 {
                            ParseOut::Failed(AsmError::SyntaxError)
                        } else {
                            match ts[pos + 2] {
                                TokenV::Ident(name) => if ts[pos + 3] is LBrace {
                                    if fuel == 0 {
                                        ParseOut::Spent
                                    } else {
                                        match sp_stmts(ts, pos + 4, (fuel - 1) as nat) {
                                            ParseOut::Parsed(body, after) => if after + 1
                                                < ts.len() && ts[after] is RBrace && ts[after + 1]
                                                is Semi {
                                                ParseOut::Parsed(
                                                    StatementV::MacroDef(name, body),
                                                    after + 2,
                                                )
                                            } else {
                                                ParseOut::Failed(AsmError::SyntaxError)
                                            },
                                            ParseOut::Failed(e) => ParseOut::Failed(e),
                                            ParseOut::Spent => ParseOut::Spent,
                                        }
                                    }
                                } else {
                                    ParseOut::Failed(AsmError::SyntaxError)
                                },
                                _ => ParseOut::Failed(AsmError::SyntaxError),
                            }
                        }
                    } else if w == "const"@ {
                        if ts.len() - pos < 6 {
                            ParseOut::Failed(AsmError::SyntaxError)
                        } else {
                            match ts[pos + 2] {
                                TokenV::Ident(name) => if !(ts[pos + 3] is Equals) {
                                    ParseOut::Failed(AsmError::SyntaxError)
                                } else {
                                    let value = match ts[pos + 4] {
                                        TokenV::DecLit(v) => Some(OperandV::Decimal(v)),
                                        TokenV::HexLit(s) => Some(OperandV::Hex(s)),
                                        _ => None,
                                    };
                                    match value {
                                        None => ParseOut::Failed(AsmError::SyntaxError),
                                        Some(v) => if ts[pos + 5] is Semi {
                                            ParseOut::Parsed(
                                                StatementV::ConstantDef(name, v),
                                                pos + 6,
                                            )
                                        } else {
                                            ParseOut::Failed(AsmError::SyntaxError)
                                        },
                                    }
                                },
                                _ => ParseOut::Failed(AsmError::SyntaxError),
                            }
                        }
                    } else if w == "include"@ {
                        if ts.len() - pos < 4 {
                            ParseOut::Failed(AsmError::SyntaxError)
                        } else {
                            match ts[pos + 2] {
                                TokenV::StrLit(p) => if ts[pos + 3] is Semi {
                                    ParseOut::Parsed(StatementV::Include(p), pos + 4)
                                } else {
                                    ParseOut::Failed(AsmError::SyntaxError)
                                },
                                _ => ParseOut::Failed(AsmError::SyntaxError),
                            }
                        }
                    } else {
                        ParseOut::Failed(AsmError::SyntaxError)
                    },
                    _ => ParseOut::Failed(AsmError::SyntaxError),
                }
            },
            _ => ParseOut::Failed(AsmError::SyntaxError),
        }
    }
}

/// The statements from `pos` up to the end of the tokens or an unconsumed
/// closing brace.
pub open spec fn sp_stmts(ts: Seq<TokenV>, pos: int, fuel: nat) -> ParseOut<Seq<StatementV>>
    decreases fuel, 1nat,
{
    if pos < 0 || pos > ts.len() {
        ParseOut::Failed(AsmError::SyntaxError)
    } else if pos == ts.len() || ts[pos] is RBrace {
        ParseOut::Parsed(Seq::empty(), pos)
    } else {
        match sp_stmt(ts, pos, fuel) {
            ParseOut::Failed(e) => ParseOut::Failed(e),
            ParseOut::Spent => ParseOut::Spent,
            ParseOut::Parsed(st, next) => if fuel == 0 {
                ParseOut::Spent
            } else {
                match sp_stmts(ts, next, (fuel - 1) as nat) {
                    ParseOut::Parsed(sts, end) => ParseOut::Parsed(seq![st] + sts, end),
                    ParseOut::Failed(e) => ParseOut::Failed(e),
                    ParseOut::Spent => ParseOut::Spent,
                }
            },
        }
    }
}

/// A parse always moves forward and stays within the token list.
pub proof fn lemma_sp_operands_progress(
    ts: Seq<TokenV>,
    pos: int,
    op: Opcode,
    ind: bool,
    ops: Seq<OperandV>,
    lbl: Option<Seq<char>>,
)
    ensures
        match sp_operands(ts, pos, op, ind, ops, lbl) {
            Ok((_, p)) => pos < p <= ts.len(),
            Err(_) => true,
        },
    decreases ts.len() - pos,
{
    if 0 <= pos < ts.len() {
        match ts[pos] {
            TokenV::DecLit(v) => {
                lemma_sp_operands_progress(ts, pos + 1, op, ind, ops.push(OperandV::Decimal(v)), lbl);
            },
            TokenV::HexLit(s) => {
                lemma_sp_operands_progress(ts, pos + 1, op, ind, ops.push(OperandV::Hex(s)), lbl);
            },
            TokenV::Ident(w) => {
                match crate::ast::spec_tag_from_name(w) {
                    Some(t) => {
                        lemma_sp_operands_progress(
                            ts,
                            pos + 1,
                            op,
                            ind,
                            ops.push(OperandV::Tag(t)),
                            lbl,
                        );
                    },
                    None => {},
                }
            },
            TokenV::Dollar => {
                if pos + 1 < ts.len() {
                    match ts[pos + 1] {
                        TokenV::Ident(w) => {
                            lemma_sp_operands_progress(
                                ts,
                                pos + 2,
                                op,
                                ind,
                                ops.push(OperandV::Variable(w)),
                                lbl,
                            );
                        },
                        _ => {},
                    }
                }
            },
            TokenV::At => {
                if pos + 1 < ts.len() {
                    match ts[pos + 1] {
                        TokenV::Ident(w) => {
                            lemma_sp_operands_progress(ts, pos + 2, op, ind, ops, Some(w));
                        },
                        _ => {},
                    }
                }
            },
            _ => {},
        }
    }
}

pub proof fn lemma_sp_stmt_progress(ts: Seq<TokenV>, pos: int, fuel: nat)
    ensures
        match sp_stmt(ts, pos, fuel) {
            ParseOut::Parsed(_, p) => pos < p <= ts.len(),
            _ => true,
        },
    decreases fuel, 0nat,
{
    if 0 <= pos < ts.len() {
        match ts[pos] {
            TokenV::Ident(name) => {
                if !(pos + 1 < ts.len() && ts[pos + 1] is Colon) {
                    match Opcode::spec_from_mnemonic(name) {
                        Some(op) => {
                            let ind = pos + 1 < ts.len() && ts[pos + 1] is Bang;
                            let start = if ind {
                                pos + 2
                            } else {
                                pos + 1
                            };
                            lemma_sp_operands_progress(ts, start, op, ind, Seq::empty(), None);
                        },
                        None => {},
                    }
                }
            },
            TokenV::Dot => {
                if fuel > 0 {
                    lemma_sp_stmts_progress(ts, pos + 4, (fuel - 1) as nat);
                }
            },
            _ => {},
        }
    }
}

pub proof fn lemma_sp_stmts_progress(ts: Seq<TokenV>, pos: int, fuel: nat)
    ensures
        match sp_stmts(ts, pos, fuel) {
            ParseOut::Parsed(_, p) => pos <= p <= ts.len(),
            _ => true,
        },
    decreases fuel, 1nat,
{
    if pos < 0 || pos > ts.len() {
    } else if pos == ts.len() || ts[pos] is RBrace {
    } else {
        lemma_sp_stmt_progress(ts, pos, fuel);
        match sp_stmt(ts, pos, fuel) {
            ParseOut::Parsed(st, next) => {
                if fuel > 0 {
                    lemma_sp_stmts_progress(ts, next, (fuel - 1) as nat);
                }
            },
            _ => {},
        }
    }
}

/// A budget at least as large as the remaining token count is never
/// exhausted.
pub proof fn lemma_sp_stmt_not_spent(ts: Seq<TokenV>, pos: int, fuel: nat)
    requires
        fuel >= ts.len() - pos,
    ensures
        !(sp_stmt(ts, pos, fuel) is Spent),
    decreases fuel, 0nat,
{
    if 0 <= pos < ts.len() {
        match ts[pos] {
            TokenV::Dot => {
                if fuel > 0 {
                    lemma_sp_stmts_not_spent(ts, pos + 4, (fuel - 1) as nat);
                }
            },
            _ => {},
        }
    }
}

pub proof fn lemma_sp_stmts_not_spent(ts: Seq<TokenV>, pos: int, fuel: nat)
    requires
        fuel >= ts.len() - pos,
    ensures
        !(sp_stmts(ts, pos, fuel) is Spent),
    decreases fuel, 1nat,
{
    if pos < 0 || pos > ts.len() {
    } else if pos == ts.len() || ts[pos] is RBrace {
    } else {
        lemma_sp_stmt_not_spent(ts, pos, fuel);
        lemma_sp_stmt_progress(ts, pos, fuel);
        match sp_stmt(ts, pos, fuel) {
            ParseOut::Parsed(st, next) => {
                lemma_sp_stmts_not_spent(ts, next, (fuel - 1) as nat);
            },
            _ => {},
        }
    }
}

/// Any two budgets that are not exhausted parse alike.
pub proof fn lemma_sp_stmt_fuel(ts: Seq<TokenV>, pos: int, f1: nat, f2: nat)
    requires
        !(sp_stmt(ts, pos, f1) is Spent),
        !(sp_stmt(ts, pos, f2) is Spent),
    ensures
        sp_stmt(ts, pos, f1) == sp_stmt(ts, pos, f2),
    decreases f1 + f2, 0nat,
{
    if 0 <= pos < ts.len() {
        match ts[pos] {
            TokenV::Dot => {
                if ts.len() - pos >= 4 {
                    match ts[pos + 1] {
                        TokenV::Ident(w) => {
                            if w == "macro"@ {
                                match ts[pos + 2] {
                                    TokenV::Ident(_) => {
                                        if ts[pos + 3] is LBrace {
                                            assert(f1 > 0 && f2 > 0);
                                            lemma_sp_stmts_fuel(
                                                ts,
                                                pos + 4,
                                                (f1 - 1) as nat,
                                                (f2 - 1) as nat,
                                            );
                                        }
                                    },
                                    _ => {},
                                }
                            }
                        },
                        _ => {},
                    }
                }
            },
            _ => {},
        }
    }
}

pub proof fn lemma_sp_stmts_fuel(ts: Seq<TokenV>, pos: int, f1: nat, f2: nat)
    requires
        !(sp_stmts(ts, pos, f1) is Spent),
        !(sp_stmts(ts, pos, f2) is Spent),
    ensures
        sp_stmts(ts, pos, f1) == sp_stmts(ts, pos, f2),
    decreases f1 + f2, 1nat,
{
    if pos < 0 || pos > ts.len() {
    } else if pos == ts.len() || ts[pos] is RBrace {
    } else {
        lemma_sp_stmt_fuel(ts, pos, f1, f2);
        match sp_stmt(ts, pos, f1) {
            ParseOut::Parsed(st, next) => {
                lemma_sp_stmts_fuel(ts, next, (f1 - 1) as nat, (f2 - 1) as nat);
            },
            _ => {},
        }
    }
}

/// What parsing a whole source text yields.
pub open spec fn spec_parse_asm(cs: Seq<char>) -> Result<Seq<StatementV>, AsmError> {
    match spec_tokenize(cs, 0) {
        Err(e) => Err(e),
        Ok(ts) => match sp_stmts(ts, 0, ts.len()) {
            ParseOut::Parsed(sts, end) => if end == ts.len() {
                Ok(sts)
            } else {
                Err(AsmError::SyntaxError)
            },
            ParseOut::Failed(e) => Err(e),
            ParseOut::Spent => Err(AsmError::SyntaxError),
        },
    }
}

/// The view of an optional name.
pub open spec fn opt_str_dv(o: Option<String>) -> Option<Seq<char>> {
    match o {
        Some(l) => Some(l@),
        None => None,
    }
}

/// Parses the operand list of one opcode statement, up to and including
/// its closing semicolon.
fn parse_operands(toks: &Vec<Token>, pos: usize, opcode: Opcode, indirect: bool) -> (r: Result<
    (Statement, usize),
    AsmError,
>)
    requires
        wf_tokens(toks.deep_view()),
        pos <= toks@.len(),
    ensures
        (match sp_operands(
            toks.deep_view(),
            pos as int,
            opcode,
            indirect,
            Seq::empty(),
            None,
        ) {
            Ok((st, p)) => r is Ok && r->Ok_0.0.deep_view() == st && r->Ok_0.1 == p,
            Err(e) => r == Err::<(Statement, usize), AsmError>(e),
        }),
        r is Ok ==> wf_statement(r->Ok_0.0.deep_view()) && pos < r->Ok_0.1 <= toks@.len(),
        r is Err ==> r == Err::<(Statement, usize), AsmError>(AsmError::SyntaxError),
{
    broadcast use lemma_tokens_dv;

    let ghost tv = toks.deep_view();
    let n = toks.len();
    let mut operands: Vec<Operand> = Vec::new();
    let mut jump_label: Option<String> = None;
    let mut i: usize = pos;
    proof {
        assert(operands.deep_view() =~= Seq::<OperandV>::empty());
        lemma_sp_operands_progress(tv, pos as int, opcode, indirect, Seq::empty(), None);
    }
    while i < n
        invariant
            pos <= i <= n,
            n == toks@.len(),
            tv == toks.deep_view(),
            tv.len() == n,
            wf_tokens(tv),
            forall|q: int|
                0 <= q < operands@.len() ==> wf_operand(#[trigger] operands@[q].deep_view()),
            sp_operands(tv, pos as int, opcode, indirect, Seq::empty(), None) == sp_operands(
                tv,
                i as int,
                opcode,
                indirect,
                operands.deep_view(),
                opt_str_dv(jump_label),
            ),
        decreases n - i,
    {
        proof {
            assert(wf_token(tv[i as int]));
            assert(tv[i as int] == toks@[i as int].deep_view());
        }
        let ghost ops0 = operands.deep_view();
        match &toks[i] {
            Token::Semi => {
                let st = Statement::OpcodeStatement(opcode, indirect, operands, jump_label);
                proof {
                    let ops = st.deep_view()->Op_2;
                    assert forall|q: int| 0 <= q < ops.len() implies wf_operand(
                        #[trigger] ops[q],
                    ) by {
                        assert(ops[q] == operands@[q].deep_view());
                    };
                }
                return Ok((st, i + 1));
            },
            Token::DecLit(v) => {
                operands.push(Operand::Decimal(*v));
                proof {
                    assert(operands.deep_view() =~= ops0.push(OperandV::Decimal(*v)));
                }
                i += 1;
            },
            Token::HexLit(s) => {
                let ghost sv = s@;
                operands.push(Operand::Hex(s.clone()));
                proof {
                    assert(operands.deep_view() =~= ops0.push(OperandV::Hex(sv)));
                }
                i += 1;
            },
            Token::Ident(w) => match tag_from_name(w.as_str()) {
                Some(t) => {
                    operands.push(Operand::Tag(t));
                    proof {
                        assert(operands.deep_view() =~= ops0.push(OperandV::Tag(t)));
                    }
                    i += 1;
                },
                None => {
                    return Err(AsmError::SyntaxError);
                },
            },
            Token::Dollar => {
                if i + 1 < n {
                    proof {
                        assert(tv[i + 1] == toks@[i + 1].deep_view());
                    }
                    match &toks[i + 1] {
                        Token::Ident(w) => {
                            let ghost wv = w@;
                            operands.push(Operand::Variable(w.clone()));
                            proof {
                                assert(operands.deep_view() =~= ops0.push(OperandV::Variable(wv)));
                            }
                            i += 2;
                        },
                        _ => {
                            return Err(AsmError::SyntaxError);
                        },
                    }
                } else {
                    return Err(AsmError::SyntaxError);
                }
            },
            Token::At => {
                if i + 1 < n {
                    proof {
                        assert(tv[i + 1] == toks@[i + 1].deep_view());
                    }
                    match &toks[i + 1] {
                        Token::Ident(w) => {
                            jump_label = Some(w.clone());
                            i += 2;
                        },
                        _ => {
                            return Err(AsmError::SyntaxError);
                        },
                    }
                } else {
                    return Err(AsmError::SyntaxError);
                }
            },
            _ => {
                return Err(AsmError::SyntaxError);
            },
        }
    }
    // the statement never ended in a semicolon
    Err(AsmError::SyntaxError)
}

/// Parses one statement starting at `pos`.
fn parse_statement(toks: &Vec<Token>, pos: usize) -> (r: Result<(Statement, usize), AsmError>)
    requires
        wf_tokens(toks.deep_view()),
        pos < toks@.len(),
    ensures
        (match sp_stmt(toks.deep_view(), pos as int, (toks@.len() - pos) as nat) {
            ParseOut::Parsed(st, p) => r is Ok && r->Ok_0.0.deep_view() == st && r->Ok_0.1 == p,
            ParseOut::Failed(e) => r == Err::<(Statement, usize), AsmError>(e),
            ParseOut::Spent => false,
        }),
        r is Ok ==> wf_statement(r->Ok_0.0.deep_view()) && pos < r->Ok_0.1 <= toks@.len(),
        r is Err ==> r == Err::<(Statement, usize), AsmError>(AsmError::SyntaxError),
    decreases toks@.len() - pos, 0nat,
{
    broadcast use lemma_tokens_dv;

    let ghost tv = toks.deep_view();
    let ghost fl = (toks@.len() - pos) as nat;
    proof {
        lemma_sp_stmt_not_spent(tv, pos as int, fl);
        lemma_sp_stmt_progress(tv, pos as int, fl);
    }
    let n = toks.len();
    match &toks[pos] {
        Token::Ident(name) => {
            if pos + 1 < n {
                let is_colon = match &toks[pos + 1] {
                    Token::Colon => true,
                    _ => false,
                };
                if is_colon {
                    return Ok((Statement::Label(name.clone()), pos + 2));
                }
            }
            // an opcode mnemonic, optionally with an indirect marker
            match Opcode::from_mnemonic(name.as_str()) {
                None => Err(AsmError::SyntaxError),
                Some(op) => {
                    let mut i = pos + 1;
                    let mut indirect = false;
                    if i < n {
                        let is_bang = match &toks[i] {
                            Token::Bang => true,
                            _ => false,
                        };
                        if is_bang {
                            indirect = true;
                            i += 1;
                        }
                    }
                    parse_operands(toks, i, op, indirect)
                },
            }
        },
        Token::Dollar => {
            // a macro invocation: `$name;`
            if n - pos < 3 {
                return Err(AsmError::SyntaxError);
            }
            let name = match &toks[pos + 1] {
                Token::Ident(w) => w.clone(),
                _ => {
                    return Err(AsmError::SyntaxError);
                },
            };
            match &toks[pos + 2] {
                Token::Semi => Ok((Statement::MacroInvocation(name), pos + 3)),
                _ => Err(AsmError::SyntaxError),
            }
        },
        Token::Dot => {
            if n - pos < 2 {
                return Err(AsmError::SyntaxError);
            }
            let word = match &toks[pos + 1] {
                Token::Ident(w) => w,
                _ => {
                    return Err(AsmError::SyntaxError);
                },
            };
            if str_eq(word.as_str(), "macro") {
                // `.macro name { body };`
                if n - pos < 4 {
                    return Err(AsmError::SyntaxError);
                }
                let name = match &toks[pos + 2] {
                    Token::Ident(w) => w.clone(),
                    _ => {
                        return Err(AsmError::SyntaxError);
                    },
                };
                match &toks[pos + 3] {
                    Token::LBrace => {},
                    _ => {
                        return Err(AsmError::SyntaxError);
                    },
                }
                proof {
                    lemma_sp_stmts_not_spent(tv, pos + 4, (fl - 1) as nat);
                    lemma_sp_stmts_not_spent(tv, pos + 4, (toks@.len() - (pos + 4)) as nat);
                    lemma_sp_stmts_fuel(
                        tv,
                        pos + 4,
                        (fl - 1) as nat,
                        (toks@.len() - (pos + 4)) as nat,
                    );
                }
                let (body, after) = match parse_statements(toks, pos + 4) {
                    Ok(p) => p,
                    Err(e) => {
                        return Err(e);
                    },
                };
                if n - after < 2 {
                    return Err(AsmError::SyntaxError);
                }
                match &toks[after] {
                    Token::RBrace => {},
                    _ => {
                        return Err(AsmError::SyntaxError);
                    },
                }
                match &toks[after + 1] {
                    Token::Semi => {},
                    _ => {
                        return Err(AsmError::SyntaxError);
                    },
                }
                let st = Statement::MacroStatement(name, body);
                proof {
                    crate::ast::lemma_stmt_seq_dv_is_deep_view(body);
                }
                Ok((st, after + 2))
            } else if str_eq(word.as_str(), "const") {
                // `.const name = literal;`
                if n - pos < 6 {
                    return Err(AsmError::SyntaxError);
                }
                let name = match &toks[pos + 2] {
                    Token::Ident(w) => w.clone(),
                    _ => {
                        return Err(AsmError::SyntaxError);
                    },
                };
                match &toks[pos + 3] {
                    Token::Equals => {},
                    _ => {
                        return Err(AsmError::SyntaxError);
                    },
                }
                proof {
                    assert(wf_token(toks.deep_view()[pos + 4]));
                    assert(toks.deep_view()[pos + 4] == toks@[pos + 4].deep_view());
                }
                let value = match &toks[pos + 4] {
                    Token::DecLit(v) => Operand::Decimal(*v),
                    Token::HexLit(s) => Operand::Hex(s.clone()),
                    _ => {
                        return Err(AsmError::SyntaxError);
                    },
                };
                match &toks[pos + 5] {
                    Token::Semi => Ok((Statement::ConstantDefinition(name, value), pos + 6)),
                    _ => Err(AsmError::SyntaxError),
                }
            } else if str_eq(word.as_str(), "include") {
                // `.include "path";`
                if n - pos < 4 {
                    return Err(AsmError::SyntaxError);
                }
                let path = match &toks[pos + 2] {
                    Token::StrLit(p) => p.clone(),
                    _ => {
                        return Err(AsmError::SyntaxError);
                    },
                };
                match &toks[pos + 3] {
                    Token::Semi => Ok((Statement::IncludeStatement(path), pos + 4)),
                    _ => Err(AsmError::SyntaxError),
                }
            } else {
                Err(AsmError::SyntaxError)
            }
        },
        _ => Err(AsmError::SyntaxError),
    }
}

/// Parses statements until the token list ends or a closing brace is
/// reached (which is not consumed).
fn parse_statements(toks: &Vec<Token>, pos: usize) -> (r: Result<(Vec<Statement>, usize), AsmError>)
    requires
        wf_tokens(toks.deep_view()),
        pos <= toks@.len(),
    ensures
        (match sp_stmts(toks.deep_view(), pos as int, (toks@.len() - pos) as nat) {
            ParseOut::Parsed(sts, end) => r is Ok && crate::ast::stmt_seq_dv(r->Ok_0.0@) == sts
                && r->Ok_0.1 == end,
            ParseOut::Failed(e) => r == Err::<(Vec<Statement>, usize), AsmError>(e),
            ParseOut::Spent => false,
        }),
        r is Ok ==> wf_stmt_seq(crate::ast::stmt_seq_dv(r->Ok_0.0@)) && pos <= r->Ok_0.1
            <= toks@.len(),
        r is Err ==> r == Err::<(Vec<Statement>, usize), AsmError>(AsmError::SyntaxError),
    decreases toks@.len() - pos, 1nat,
{
    broadcast use lemma_tokens_dv;

    let ghost tv = toks.deep_view();
    let ghost fuel0 = (toks@.len() - pos) as nat;
    let n = toks.len();
    let mut out: Vec<Statement> = Vec::new();
    let mut i: usize = pos;
    let ghost mut fl = fuel0;
    proof {
        lemma_sp_stmts_not_spent(tv, pos as int, fuel0);
        match sp_stmts(tv, pos as int, fuel0) {
            ParseOut::Parsed(sts, end) => {
                assert(crate::ast::stmt_seq_dv(out@) =~= Seq::<StatementV>::empty());
                assert(Seq::<StatementV>::empty() + sts =~= sts);
            },
            _ => {},
        }
    }
    loop
        invariant
            pos <= i <= n,
            n == toks@.len(),
            tv == toks.deep_view(),
            tv.len() == n,
            fuel0 == (toks@.len() - pos) as nat,
            wf_tokens(tv),
            fl >= n - i,
            forall|q: int| 0 <= q < out@.len() ==> wf_statement(#[trigger] out@[q].deep_view()),
            (match sp_stmts(tv, i as int, fl) {
                ParseOut::Parsed(sts, end) => sp_stmts(tv, pos as int, fuel0) == ParseOut::Parsed(
                    crate::ast::stmt_seq_dv(out@) + sts,
                    end,
                ),
                ParseOut::Failed(e) => sp_stmts(tv, pos as int, fuel0)
                    == ParseOut::Failed::<Seq<StatementV>>(e),
                ParseOut::Spent => false,
            }),
        ensures
            pos <= i <= n,
            i == n || tv[i as int] is RBrace,
            (match sp_stmts(tv, i as int, fl) {
                ParseOut::Parsed(sts, end) => sp_stmts(tv, pos as int, fuel0) == ParseOut::Parsed(
                    crate::ast::stmt_seq_dv(out@) + sts,
                    end,
                ),
                ParseOut::Failed(e) => sp_stmts(tv, pos as int, fuel0)
                    == ParseOut::Failed::<Seq<StatementV>>(e),
                ParseOut::Spent => false,
            }),
            forall|q: int| 0 <= q < out@.len() ==> wf_statement(#[trigger] out@[q].deep_view()),
        decreases n - i,
    {
        if i >= n {
            break ;
        }
        let is_rbrace = match &toks[i] {
            Token::RBrace => true,
            _ => false,
        };
        proof {
            assert(tv[i as int] == toks@[i as int].deep_view());
        }
        if is_rbrace {
            break ;
        }
        proof {
            lemma_sp_stmt_not_spent(tv, i as int, fl);
            lemma_sp_stmt_not_spent(tv, i as int, (n - i) as nat);
            lemma_sp_stmt_fuel(tv, i as int, fl, (n - i) as nat);
            lemma_sp_stmt_progress(tv, i as int, fl);
        }
        let ghost done0 = crate::ast::stmt_seq_dv(out@);
        let (st, next) = match parse_statement(toks, i) {
            Ok(p) => p,
            Err(e) => {
                proof {
                    assert(!(tv[i as int] is RBrace));
                    assert(sp_stmt(tv, i as int, fl) == ParseOut::Failed::<StatementV>(e));
                    assert(sp_stmts(tv, i as int, fl) == ParseOut::Failed::<Seq<StatementV>>(e));
                }
                return Err(e);
            },
        };
        let ghost stv = st.deep_view();
        out.push(st);
        proof {
            assert(crate::ast::stmt_seq_dv(out@) =~= done0.push(stv));
            assert(fl > 0);
            lemma_sp_stmts_not_spent(tv, next as int, (fl - 1) as nat);
            match sp_stmts(tv, next as int, (fl - 1) as nat) {
                ParseOut::Parsed(sts, end) => {
                    assert(sp_stmts(tv, i as int, fl) == ParseOut::Parsed(seq![stv] + sts, end));
                    assert(done0 + (seq![stv] + sts) =~= done0.push(stv) + sts);
                },
                ParseOut::Failed(e) => {
                    assert(sp_stmts(tv, i as int, fl) == ParseOut::Failed::<Seq<StatementV>>(e));
                },
                ParseOut::Spent => {
                    assert(false);
                },
            }
        }
        i = next;
        proof {
            fl = (fl - 1) as nat;
        }
    }
    proof {
        assert(sp_stmts(tv, i as int, fl) == ParseOut::Parsed(Seq::<StatementV>::empty(), i as int));
        assert(crate::ast::stmt_seq_dv(out@) + Seq::<StatementV>::empty() =~= crate::ast::stmt_seq_dv(
            out@,
        ));
        lemma_sp_stmts_not_spent(tv, pos as int, fuel0);
        assert forall|q: int|
            0 <= q < out@.len() implies wf_statement(
            #[trigger] crate::ast::stmt_seq_dv(out@)[q],
        ) by {
            assert(crate::ast::stmt_seq_dv(out@)[q] == out@[q].deep_view());
        };
    }
    Ok((out, i))
}

/// Parses one assembly source text into its statement sequence; any text
/// that does not follow the grammar is a syntax error.
pub fn parse_asm(input: String) -> (r: Result<Vec<Statement>, AsmError>)
    ensures
        (match spec_parse_asm(input@) {
            Ok(sts) => r is Ok && crate::ast::stmt_seq_dv(r->Ok_0@) == sts,
            Err(e) => r == Err::<Vec<Statement>, AsmError>(e),
        }),
        r is Ok ==> wf_stmt_seq(crate::ast::stmt_seq_dv(r->Ok_0@)),
        r is Err ==> r == Err::<Vec<Statement>, AsmError>(AsmError::SyntaxError),
{
    let toks = match tokenize(input.as_str()) {
        Ok(t) => t,
        Err(e) => {
            return Err(e);
        },
    };
    let (stmts, end) = match parse_statements(&toks, 0) {
        Ok(p) => p,
        Err(e) => {
            return Err(e);
        },
    };
    if end != toks.len() {
        // a closing brace with no matching open brace
        return Err(AsmError::SyntaxError);
    }
    Ok(stmts)
}

} // verus!
