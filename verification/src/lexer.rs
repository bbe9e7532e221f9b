use vstd::prelude::*;
use vstd::utf8::{encode_utf8, encode_scalar, char_is_scalar};
use crate::span::Span;
use crate::ast::{Token, TokenV, toks_view};
use crate::error::{Error, ErrorV, error_seq_view};
use crate::strutil::{str_to_chars, chars_substring, chars_to_string};

verus! {

/// Whether a character is whitespace between tokens.
pub open spec fn spec_is_space(c: char) -> bool {
    c == ' ' || c == '\t' || c == '\n' || c == '\r'
}

/// Whether a character is an ASCII decimal digit.
pub open spec fn spec_is_digit(c: char) -> bool {
    '0' <= c <= '9'
}

/// Whether a character is an ASCII hexadecimal digit.
pub open spec fn spec_is_hex_digit(c: char) -> bool {
    '0' <= c <= '9' || 'a' <= c <= 'f' || 'A' <= c <= 'F'
}

/// The numeric value of a hexadecimal digit.
pub open spec fn spec_hex_value(c: char) -> int {
    if '0' <= c <= '9' {
        c as int - '0' as int
    } else if 'a' <= c <= 'f' {
        c as int - 'a' as int + 10
    } else {
        c as int - 'A' as int + 10
    }
}

/// Whether a character belongs to an operator-symbol cluster; `.` and `%`
/// belong so that the range and remainder operators lex as clusters.
pub open spec fn spec_is_op_char(c: char) -> bool {
    c == '+' || c == '-' || c == '*' || c == '/' || c == '!' || c == '=' || c == '<' || c == '>'
        || c == '&' || c == '|' || c == '.' || c == '%'
}

/// Whether a character is a single control character.
pub open spec fn spec_is_ctrl(c: char) -> bool {
    c == '(' || c == ')' || c == '[' || c == ']' || c == '{' || c == '}' || c == ';' || c == ','
}

/// Whether a character may start an identifier.
pub open spec fn spec_is_ident_start(c: char) -> bool {
    ('a' <= c <= 'z') || ('A' <= c <= 'Z') || c == '_'
}

/// Whether a character may continue an identifier.
pub open spec fn spec_is_ident_continue(c: char) -> bool {
    ('a' <= c <= 'z') || ('A' <= c <= 'Z') || ('0' <= c <= '9') || c == '_'
}

/// The byte offset of the `i`-th character: the UTF-8 length of all the
/// characters before it.
pub open spec fn byte_off(cs: Seq<char>, i: int) -> int {
    encode_utf8(cs.take(i)).len() as int
}

/// The byte span covering characters `i..j` of the source.
pub open spec fn lex_span(cs: Seq<char>, i: int, j: int) -> Span {
    Span { start: byte_off(cs, i) as usize, end: byte_off(cs, j) as usize }
}

/// UTF-8 encoding distributes over concatenation.
proof fn lemma_encode_concat(a: Seq<char>, b: Seq<char>)
    ensures
        encode_utf8(a + b) == encode_utf8(a) + encode_utf8(b),
    decreases a.len(),
{
    if a.len() == 0 {
        assert(a + b =~= b);
        assert(encode_utf8(a) + encode_utf8(b) =~= encode_utf8(b));
    } else {
        lemma_encode_concat(a.drop_first(), b);
        assert((a + b).drop_first() =~= a.drop_first() + b);
        assert((a + b)[0] == a[0]);
        assert(encode_scalar(a[0] as u32) + (encode_utf8(a.drop_first()) + encode_utf8(b))
            =~= (encode_scalar(a[0] as u32) + encode_utf8(a.drop_first())) + encode_utf8(b));
    }
}

/// One more character adds exactly its own UTF-8 width to the byte offset.
proof fn lemma_byte_off_step(cs: Seq<char>, i: int)
    requires
        0 <= i < cs.len(),
    ensures
        byte_off(cs, i + 1) == byte_off(cs, i) + encode_scalar(cs[i] as u32).len(),
        1 <= encode_scalar(cs[i] as u32).len() <= 4,
{
    assert(cs.take(i + 1) =~= cs.take(i) + seq![cs[i]]);
    lemma_encode_concat(cs.take(i), seq![cs[i]]);
    assert(seq![cs[i]][0] == cs[i]);
    assert(seq![cs[i]].drop_first() =~= Seq::<char>::empty());
    assert(encode_utf8(Seq::<char>::empty()) =~= Seq::<u8>::empty());
    assert(encode_utf8(seq![cs[i]]) == encode_scalar(cs[i] as u32) + encode_utf8(
        seq![cs[i]].drop_first(),
    ));
    assert(encode_scalar(cs[i] as u32) + Seq::<u8>::empty() =~= encode_scalar(cs[i] as u32));
    char_is_scalar(cs[i]);
}

/// Byte offsets grow with the character position, by at most four bytes per
/// character.
proof fn lemma_byte_off_mono(cs: Seq<char>, i: int, j: int)
    requires
        0 <= i <= j <= cs.len(),
    ensures
        byte_off(cs, i) <= byte_off(cs, j) <= byte_off(cs, i) + 4 * (j - i),
    decreases j - i,
{
    if i < j {
        lemma_byte_off_mono(cs, i, j - 1);
        lemma_byte_off_step(cs, j - 1);
    }
}

/// The UTF-8 width of one character.
fn char_width(c: char) -> (r: usize)
    ensures
        r == encode_scalar(c as u32).len(),
{
    proof {
        char_is_scalar(c);
    }
    let u = c as u32;
    if u < 0x80 {
        1
    } else if u < 0x800 {
        2
    } else if u < 0x10000 {
        3
    } else {
        4
    }
}

/// The byte offset of every character position, in order, with the total
/// byte length last.
#[verifier::loop_isolation(false)]
fn byte_offsets(src: &str, cs: &Vec<char>) -> (offs: Vec<usize>)
    requires
        cs@ == src@,
    ensures
        offs@.len() == cs@.len() + 1,
        forall|k: int| 0 <= k < offs@.len() ==> (#[trigger] offs@[k]) == byte_off(cs@, k) as usize,
{
    let n = cs.len();
    let mut offs: Vec<usize> = Vec::new();
    let mut b: u128 = 0;
    let mut i: usize = 0;
    proof {
        assert(cs@.take(0) =~= Seq::<char>::empty());
    }
    while i < n
        invariant
            0 <= i <= n,
            n == cs@.len(),
            offs@.len() == i,
            b == byte_off(cs@, i as int),
            forall|k: int| 0 <= k < i ==> (#[trigger] offs@[k]) == byte_off(cs@, k) as usize,
        decreases n - i,
    {
        offs.push(#[verifier::truncate] (b as usize));
        let w = char_width(cs[i]);
        proof {
            lemma_byte_off_step(cs@, i as int);
            lemma_byte_off_mono(cs@, 0, i as int + 1);
        }
        b = b + (w as u128);
        i = i + 1;
    }
    offs.push(#[verifier::truncate] (b as usize));
    offs
}

/// The end of a run of decimal digits starting at `i`.
pub open spec fn digit_run(cs: Seq<char>, i: int) -> int
    decreases cs.len() - i,
{
    if 0 <= i < cs.len() && spec_is_digit(cs[i]) {
        digit_run(cs, i + 1)
    } else {
        i
    }
}

/// The end of a run of operator characters starting at `i`.
pub open spec fn op_run(cs: Seq<char>, i: int) -> int
    decreases cs.len() - i,
{
    if 0 <= i < cs.len() && spec_is_op_char(cs[i]) {
        op_run(cs, i + 1)
    } else {
        i
    }
}

/// The end of a run of identifier characters starting at `i`.
pub open spec fn ident_run(cs: Seq<char>, i: int) -> int
    decreases cs.len() - i,
{
    if 0 <= i < cs.len() && spec_is_ident_continue(cs[i]) {
        ident_run(cs, i + 1)
    } else {
        i
    }
}

/// The position of the next line break at or after `i` (or the end).
pub open spec fn line_end(cs: Seq<char>, i: int) -> int
    decreases cs.len() - i,
{
    if 0 <= i < cs.len() && cs[i] != '\n' {
        line_end(cs, i + 1)
    } else {
        i
    }
}

/// The end of a number token starting at `i` (a digit, or a minus bound to a
/// digit): digits, an optional fraction, an optional exponent.
pub open spec fn num_end(cs: Seq<char>, i: int) -> int {
    let j1 = digit_run(cs, i + 1);
    let j2 = if j1 < cs.len() && cs[j1] == '.' && j1 + 1 < cs.len() && spec_is_digit(
        cs[j1 + 1],
    ) {
        digit_run(cs, j1 + 1)
    } else {
        j1
    };
    if j2 < cs.len() && (cs[j2] == 'e' || cs[j2] == 'E') {
        let k0 = j2 + 1;
        let k1 = if k0 < cs.len() && (cs[k0] == '+' || cs[k0] == '-') {
            k0 + 1
        } else {
            k0
        };
        if k1 < cs.len() && spec_is_digit(cs[k1]) {
            digit_run(cs, k1)
        } else {
            j2
        }
    } else {
        j2
    }
}

/// The scalar value of four hexadecimal digits starting at `p`.
pub open spec fn spec_hex4(cs: Seq<char>, p: int) -> int {
    spec_hex_value(cs[p]) * 4096 + spec_hex_value(cs[p + 1]) * 256 + spec_hex_value(cs[p + 2]) * 16
        + spec_hex_value(cs[p + 3])
}

/// The scan of a string body from `j` up to the closing quote: whether it
/// closed, the position just past where scanning stopped, the decoded text,
/// and the lexical errors found on the way. Escapes follow a backslash; a
/// `\u` escape takes four hex digits, and an invalid code point is an error
/// that decodes as the replacement character.
pub open spec fn string_scan(cs: Seq<char>, j: int, quote: char, text: Seq<char>) -> (
    bool,
    int,
    Seq<char>,
    Seq<ErrorV>,
)
    decreases cs.len() - j,
{
    if !(0 <= j < cs.len()) {
        (false, j, text, Seq::empty())
    } else {
        let d = cs[j];
        if d == quote {
            (true, j + 1, text, Seq::empty())
        } else if d == '\\' {
            if j + 1 >= cs.len() {
                let r = string_scan(cs, j + 1, quote, text);
                (r.0, r.1, r.2, seq![ErrorV::SyntaxError { span: lex_span(cs, j, j + 1) }] + r.3)
            } else {
                let e = cs[j + 1];
                if e == '\\' || e == '/' || e == '"' || e == '\'' {
                    string_scan(cs, j + 2, quote, text.push(e))
                } else if e == 'b' {
                    string_scan(cs, j + 2, quote, text.push('\u{0008}'))
                } else if e == 'f' {
                    string_scan(cs, j + 2, quote, text.push('\u{000C}'))
                } else if e == 'n' {
                    string_scan(cs, j + 2, quote, text.push('\n'))
                } else if e == 'r' {
                    string_scan(cs, j + 2, quote, text.push('\r'))
                } else if e == 't' {
                    string_scan(cs, j + 2, quote, text.push('\t'))
                } else if e == 'u' {
                    if cs.len() - j > 5 && spec_is_hex_digit(cs[j + 2]) && spec_is_hex_digit(
                        cs[j + 3],
                    ) && spec_is_hex_digit(cs[j + 4]) && spec_is_hex_digit(cs[j + 5]) {
                        let v = spec_hex4(cs, j + 2);
                        if 0xD800 <= v < 0xE000 || v > 0x10FFFF {
                            let r = string_scan(cs, j + 6, quote, text.push('\u{FFFD}'));
                            (
                                r.0,
                                r.1,
                                r.2,
                                seq![ErrorV::SyntaxError { span: lex_span(cs, j, j + 6) }] + r.3,
                            )
                        } else {
                            string_scan(cs, j + 6, quote, text.push(v as char))
                        }
                    } else {
                        let r = string_scan(cs, j + 2, quote, text);
                        (
                            r.0,
                            r.1,
                            r.2,
                            seq![ErrorV::SyntaxError { span: lex_span(cs, j, j + 2) }] + r.3,
                        )
                    }
                } else {
                    let r = string_scan(cs, j + 2, quote, text);
                    (r.0, r.1, r.2, seq![ErrorV::SyntaxError { span: lex_span(cs, j, j + 2) }] + r.3)
                }
            }
        } else {
            string_scan(cs, j + 1, quote, text.push(d))
        }
    }
}

/// The reserved word or token an identifier run stands for.
pub open spec fn spec_classify(cs: Seq<char>) -> TokenV {
    if cs == "if"@ {
        TokenV::If
    } else if cs == "else"@ {
        TokenV::Else
    } else if cs == "true"@ {
        TokenV::Bool(true)
    } else if cs == "false"@ {
        TokenV::Bool(false)
    } else if cs == "null"@ {
        TokenV::Null
    } else if cs == "and"@ || cs == "or"@ || cs == "in"@ {
        TokenV::Op(cs)
    } else {
        TokenV::Ident(cs)
    }
}

/// Lexing of the source from character position `i` on: the remaining
/// tokens, each with its byte span, and the lexical errors, in source order.
/// Whitespace and `//` comments separate tokens; a character that can start
/// no token is an error and is skipped.
pub open spec fn spec_lex_at(cs: Seq<char>, i: int) -> (Seq<(TokenV, Span)>, Seq<ErrorV>)
    decreases cs.len() - i,
{
    if !(0 <= i < cs.len()) {
        (Seq::empty(), Seq::empty())
    } else {
        let c = cs[i];
        if spec_is_space(c) {
            spec_lex_at(cs, i + 1)
        } else if c == '/' && i + 1 < cs.len() && cs[i + 1] == '/' {
            let j = line_end(cs, i + 2);
            if i < j <= cs.len() {
                spec_lex_at(cs, j)
            } else {
                (Seq::empty(), Seq::empty())
            }
        } else if spec_is_digit(c) || (c == '-' && i + 1 < cs.len() && spec_is_digit(cs[i + 1])) {
            let j = num_end(cs, i);
            if i < j <= cs.len() {
                let r = spec_lex_at(cs, j);
                (seq![(TokenV::Num(cs.subrange(i, j)), lex_span(cs, i, j))] + r.0, r.1)
            } else {
                (Seq::empty(), Seq::empty())
            }
        } else if c == '"' || c == '\'' {
            let (closed, j, text, serrs) = string_scan(cs, i + 1, c, Seq::empty());
            if i < j <= cs.len() {
                let r = spec_lex_at(cs, j);
                if closed {
                    (seq![(TokenV::Str(text), lex_span(cs, i, j))] + r.0, serrs + r.1)
                } else {
                    (r.0, serrs + seq![ErrorV::SyntaxError { span: lex_span(cs, i, j) }] + r.1)
                }
            } else {
                (Seq::empty(), Seq::empty())
            }
        } else if spec_is_op_char(c) {
            let j = op_run(cs, i + 1);
            if i < j <= cs.len() {
                let r = spec_lex_at(cs, j);
                (seq![(TokenV::Op(cs.subrange(i, j)), lex_span(cs, i, j))] + r.0, r.1)
            } else {
                (Seq::empty(), Seq::empty())
            }
        } else if spec_is_ctrl(c) {
            let r = spec_lex_at(cs, i + 1);
            (seq![(TokenV::Ctrl(c), lex_span(cs, i, i + 1))] + r.0, r.1)
        } else if spec_is_ident_start(c) {
            let j = ident_run(cs, i + 1);
            if i < j <= cs.len() {
                let r = spec_lex_at(cs, j);
                (seq![(spec_classify(cs.subrange(i, j)), lex_span(cs, i, j))] + r.0, r.1)
            } else {
                (Seq::empty(), Seq::empty())
            }
        } else {
            let r = spec_lex_at(cs, i + 1);
            (r.0, seq![ErrorV::SyntaxError { span: lex_span(cs, i, i + 1) }] + r.1)
        }
    }
}

/// Lexing of whole source text: its tokens and its lexical errors.
pub open spec fn spec_lex(cs: Seq<char>) -> (Seq<(TokenV, Span)>, Seq<ErrorV>) {
    spec_lex_at(cs, 0)
}

/// Whether a character is whitespace between tokens.
fn is_space(c: char) -> (r: bool)
    ensures
        r == spec_is_space(c),
{
    c == ' ' || c == '\t' || c == '\n' || c == '\r'
}

/// Whether a character is an ASCII decimal digit.
fn is_digit(c: char) -> (r: bool)
    ensures
        r == spec_is_digit(c),
{
    '0' <= c && c <= '9'
}

/// Whether a character is an ASCII hexadecimal digit.
fn is_hex_digit(c: char) -> (r: bool)
    ensures
        r == spec_is_hex_digit(c),
{
    ('0' <= c && c <= '9') || ('a' <= c && c <= 'f') || ('A' <= c && c <= 'F')
}

/// The numeric value of a hexadecimal digit.
fn hex_value(c: char) -> (r: u32)
    requires
        spec_is_hex_digit(c),
    ensures
        r == spec_hex_value(c),
        r < 16,
{
    if '0' <= c && c <= '9' {
        (c as u32) - ('0' as u32)
    } else if 'a' <= c && c <= 'f' {
        (c as u32) - ('a' as u32) + 10
    } else {
        (c as u32) - ('A' as u32) + 10
    }
}

/// Whether a character may start an identifier.
fn is_ident_start(c: char) -> (r: bool)
    ensures
        r == spec_is_ident_start(c),
{
    ('a' <= c && c <= 'z') || ('A' <= c && c <= 'Z') || c == '_'
}

/// Whether a character may continue an identifier.
fn is_ident_continue(c: char) -> (r: bool)
    ensures
        r == spec_is_ident_continue(c),
{
    ('a' <= c && c <= 'z') || ('A' <= c && c <= 'Z') || ('0' <= c && c <= '9') || c == '_'
}

/// Whether a character belongs to an operator-symbol cluster.
fn is_op_char(c: char) -> (r: bool)
    ensures
        r == spec_is_op_char(c),
{
    c == '+' || c == '-' || c == '*' || c == '/' || c == '!' || c == '=' || c == '<' || c == '>'
        || c == '&' || c == '|' || c == '.' || c == '%'
}

/// Whether a character is a single control character.
fn is_ctrl(c: char) -> (r: bool)
    ensures
        r == spec_is_ctrl(c),
{
    c == '(' || c == ')' || c == '[' || c == ']' || c == '{' || c == '}' || c == ';' || c == ','
}

/// Relies on `char::from_u32`: yields the character with this Unicode scalar
/// value, and `None` exactly on surrogate and out-of-range values.
#[verifier::external_body]
fn char_from_u32(v: u32) -> (r: Option<char>)
    ensures
        r matches Some(c) ==> c == v as char && c as u32 == v,
        r is None <==> (0xD800 <= v < 0xE000 || v > 0x10FFFF),
{
    char::from_u32(v)
}

/// The reserved word or token an identifier run stands for.
fn classify_ident(text: String) -> (t: Token)
    ensures
        t@ == spec_classify(text@),
{
    if text == "if".to_owned() {
        Token::If
    } else if text == "else".to_owned() {
        Token::Else
    } else if text == "true".to_owned() {
        Token::Bool(true)
    } else if text == "false".to_owned() {
        Token::Bool(false)
    } else if text == "null".to_owned() {
        Token::Null
    } else if text == "and".to_owned() || text == "or".to_owned() || text == "in".to_owned() {
        Token::Op(text)
    } else {
        Token::Ident(text)
    }
}

/// Converts source text into the token sequence [`spec_lex`] describes, or
/// its non-empty list of lexical errors, found with skip-and-retry recovery
/// (no character is dropped without a diagnostic). Numbers take an optional
/// leading minus bound to a digit, digits, an optional fraction and an
/// optional exponent; strings take single or double quotes with backslash
/// escapes; `//` comments and whitespace are discarded. Spans are byte
/// offsets into the source.
#[verifier::loop_isolation(false)]
#[verifier::rlimit(100)]
pub fn lexer(src: &str) -> (r: Result<Vec<(Token, Span)>, Vec<Error>>)
    ensures
        r matches Ok(toks) ==> toks_view(toks@) == spec_lex(src@).0 && spec_lex(src@).1.len()
            == 0,
        r matches Err(es) ==> error_seq_view(es@) == spec_lex(src@).1 && spec_lex(src@).1.len()
            >= 1,
{
    let cs = str_to_chars(src);
    let offs = byte_offsets(src, &cs);
    let n = cs.len();
    let ghost target = spec_lex(cs@);
    let mut toks: Vec<(Token, Span)> = Vec::new();
    let mut errors: Vec<Error> = Vec::new();
    let mut i: usize = 0;
    proof {
        assert(toks_view(toks@) =~= Seq::<(TokenV, Span)>::empty());
        assert(error_seq_view(errors@) =~= Seq::<ErrorV>::empty());
        assert(toks_view(toks@) + spec_lex_at(cs@, 0).0 =~= target.0);
        assert(error_seq_view(errors@) + spec_lex_at(cs@, 0).1 =~= target.1);
    }
    while i < n
        invariant
            0 <= i <= n,
            n == cs@.len(),
            cs@ == src@,
            offs@.len() == n + 1,
            forall|k: int| 0 <= k < offs@.len() ==> (#[trigger] offs@[k]) == byte_off(
                cs@,
                k,
            ) as usize,
            toks_view(toks@) + spec_lex_at(cs@, i as int).0 == target.0,
            error_seq_view(errors@) + spec_lex_at(cs@, i as int).1 == target.1,
        decreases n - i,
    {
        let ghost old_toks = toks_view(toks@);
        let ghost old_errs = error_seq_view(errors@);
        let c = cs[i];
        if is_space(c) {
            i = i + 1;
        } else if c == '/' && i + 1 < n && cs[i + 1] == '/' {
            // A comment runs to the end of the line.
            let ghost i0 = i as int;
            i = i + 2;
            while i < n && cs[i] != '\n'
                invariant
                    i0 + 2 <= i <= n,
                    n == cs@.len(),
                    line_end(cs@, i as int) == line_end(cs@, i0 + 2),
                decreases n - i,
            {
                i = i + 1;
            }
            proof {
                assert(line_end(cs@, i as int) == i as int);
            }
        } else if is_digit(c) || (c == '-' && i + 1 < n && is_digit(cs[i + 1])) {
            let start = i;
            let mut j = i + 1;
            while j < n && is_digit(cs[j])
                invariant
                    start < j <= n,
                    n == cs@.len(),
                    digit_run(cs@, j as int) == digit_run(cs@, start as int + 1),
                decreases n - j,
            {
                j = j + 1;
            }
            proof {
                assert(digit_run(cs@, j as int) == j as int);
            }
            if j < n && cs[j] == '.' && j + 1 < n && is_digit(cs[j + 1]) {
                let ghost f0 = j as int + 1;
                j = j + 1;
                while j < n && is_digit(cs[j])
                    invariant
                        start < j <= n,
                        f0 <= j as int,
                        n == cs@.len(),
                        digit_run(cs@, j as int) == digit_run(cs@, f0),
                    decreases n - j,
                {
                    j = j + 1;
                }
                proof {
                    assert(digit_run(cs@, j as int) == j as int);
                }
            }
            if j < n && (cs[j] == 'e' || cs[j] == 'E') {
                let mut k = j + 1;
                if k < n && (cs[k] == '+' || cs[k] == '-') {
                    k = k + 1;
                }
                if k < n && is_digit(cs[k]) {
                    let ghost k0 = k as int;
                    while k < n && is_digit(cs[k])
                        invariant
                            start < k <= n,
                            k0 <= k as int,
                            n == cs@.len(),
                            digit_run(cs@, k as int) == digit_run(cs@, k0),
                        decreases n - k,
                    {
                        k = k + 1;
                    }
                    proof {
                        assert(digit_run(cs@, k as int) == k as int);
                    }
                    j = k;
                }
            }
            proof {
                assert(j as int == num_end(cs@, start as int));
            }
            let tok = Token::Num(chars_substring(&cs, start, j));
            let span = Span::new(offs[start], offs[j]);
            proof {
                assert(span == lex_span(cs@, start as int, j as int));
                assert(toks_view(toks@.push((tok, span))) =~= old_toks.push(
                    (TokenV::Num(cs@.subrange(start as int, j as int)), span),
                ));
                assert(old_toks.push(
                    (TokenV::Num(cs@.subrange(start as int, j as int)), span),
                ) + spec_lex_at(cs@, j as int).0 =~= old_toks + spec_lex_at(cs@, start as int).0);
            }
            toks.push((tok, span));
            i = j;
        } else if c == '"' || c == '\'' {
            let quote = c;
            let start = i;
            let mut j = i + 1;
            let mut text: Vec<char> = Vec::new();
            let mut closed = false;
            let ghost starget = string_scan(cs@, start as int + 1, quote, Seq::<char>::empty());
            proof {
                assert(text@ =~= Seq::<char>::empty());
            }
            while j < n && !closed
                invariant
                    start < j <= n,
                    n == cs@.len(),
                    cs@ == src@,
                    offs@.len() == n + 1,
                    forall|k: int| 0 <= k < offs@.len() ==> (#[trigger] offs@[k]) == byte_off(
                        cs@,
                        k,
                    ) as usize,
                    !closed ==> ({
                        let (c2, j2, t2, e2) = string_scan(cs@, j as int, quote, text@);
                        c2 == starget.0 && j2 == starget.1 && t2 == starget.2 && error_seq_view(
                            errors@,
                        ) + e2 == old_errs + starget.3
                    }),
                    closed ==> j as int == starget.1 && text@ == starget.2 && starget.0 == true
                        && error_seq_view(errors@) == old_errs + starget.3,
                decreases n - j,
            {
                let ghost errs_cur = error_seq_view(errors@);
                let d = cs[j];
                if d == quote {
                    closed = true;
                    j = j + 1;
                } else if d == '\\' {
                    if j + 1 >= n {
                        let e = Error::SyntaxError { span: Span::new(offs[j], offs[j + 1]) };
                        let ghost ev = crate::error::error_view(e);
                        proof {
                            assert(ev == ErrorV::SyntaxError {
                                span: lex_span(cs@, j as int, j as int + 1),
                            });
                        }
                        errors.push(e);
                        proof {
                            assert(error_seq_view(errors@) =~= errs_cur.push(ev));
                            assert(errs_cur.push(ev) =~= errs_cur + seq![ev]);
                        }
                        j = j + 1;
                    } else {
                        let e = cs[j + 1];
                        if e == '\\' || e == '/' || e == '"' || e == '\'' {
                            text.push(e);
                            j = j + 2;
                        } else if e == 'b' {
                            text.push('\u{0008}');
                            j = j + 2;
                        } else if e == 'f' {
                            text.push('\u{000C}');
                            j = j + 2;
                        } else if e == 'n' {
                            text.push('\n');
                            j = j + 2;
                        } else if e == 'r' {
                            text.push('\r');
                            j = j + 2;
                        } else if e == 't' {
                            text.push('\t');
                            j = j + 2;
                        } else if e == 'u' {
                            if n - j > 5 && is_hex_digit(cs[j + 2]) && is_hex_digit(cs[j + 3])
                                && is_hex_digit(cs[j + 4]) && is_hex_digit(cs[j + 5]) {
                                let v = hex_value(cs[j + 2]) * 4096 + hex_value(cs[j + 3]) * 256
                                    + hex_value(cs[j + 4]) * 16 + hex_value(cs[j + 5]);
                                proof {
                                    assert(v as int == spec_hex4(cs@, j as int + 2));
                                }
                                match char_from_u32(v) {
                                    Some(u) => {
                                        text.push(u);
                                    },
                                    None => {
                                        let e2 = Error::SyntaxError {
                                            span: Span::new(offs[j], offs[j + 6]),
                                        };
                                        let ghost ev = crate::error::error_view(e2);
                                        errors.push(e2);
                                        proof {
                                            assert(error_seq_view(errors@) =~= errs_cur.push(ev));
                                            assert(errs_cur.push(ev) =~= errs_cur + seq![ev]);
                                        }
                                        text.push('\u{FFFD}');
                                    },
                                }
                                j = j + 6;
                            } else {
                                let e2 = Error::SyntaxError {
                                    span: Span::new(offs[j], offs[j + 2]),
                                };
                                let ghost ev = crate::error::error_view(e2);
                                errors.push(e2);
                                proof {
                                    assert(error_seq_view(errors@) =~= errs_cur.push(ev));
                                    assert(errs_cur.push(ev) =~= errs_cur + seq![ev]);
                                }
                                j = j + 2;
                            }
                        } else {
                            let e2 = Error::SyntaxError { span: Span::new(offs[j], offs[j + 2]) };
                            let ghost ev = crate::error::error_view(e2);
                            errors.push(e2);
                            proof {
                                assert(error_seq_view(errors@) =~= errs_cur.push(ev));
                                assert(errs_cur.push(ev) =~= errs_cur + seq![ev]);
                            }
                            j = j + 2;
                        }
                    }
                } else {
                    text.push(d);
                    j = j + 1;
                }
            }
            if !closed {
                proof {
                    assert(string_scan(cs@, j as int, quote, text@) == (
                        false,
                        j as int,
                        text@,
                        Seq::<ErrorV>::empty(),
                    ));
                    assert(error_seq_view(errors@) + Seq::<ErrorV>::empty() =~= error_seq_view(
                        errors@,
                    ));
                }
                let e = Error::SyntaxError { span: Span::new(offs[start], offs[j]) };
                let ghost ev = crate::error::error_view(e);
                errors.push(e);
                proof {
                    assert(error_seq_view(errors@) =~= (old_errs + starget.3).push(ev));
                    assert((old_errs + starget.3).push(ev) + spec_lex_at(cs@, j as int).1
                        =~= old_errs + (starget.3 + seq![ev] + spec_lex_at(cs@, j as int).1));
                    assert(old_errs + (starget.3 + seq![ev] + spec_lex_at(cs@, j as int).1)
                        =~= old_errs + spec_lex_at(cs@, start as int).1);
                }
            } else {
                let tok = Token::String(chars_to_string(&text));
                let span = Span::new(offs[start], offs[j]);
                proof {
                    assert(span == lex_span(cs@, start as int, j as int));
                    assert(toks_view(toks@.push((tok, span))) =~= old_toks.push(
                        (TokenV::Str(starget.2), span),
                    ));
                    assert(old_toks.push((TokenV::Str(starget.2), span)) + spec_lex_at(
                        cs@,
                        j as int,
                    ).0 =~= old_toks + spec_lex_at(cs@, start as int).0);
                    assert((old_errs + starget.3) + spec_lex_at(cs@, j as int).1 =~= old_errs
                        + (starget.3 + spec_lex_at(cs@, j as int).1));
                    assert(old_errs + (starget.3 + spec_lex_at(cs@, j as int).1) =~= old_errs
                        + spec_lex_at(cs@, start as int).1);
                }
                toks.push((tok, span));
            }
            i = j;
        } else if is_op_char(c) {
            let start = i;
            let mut j = i + 1;
            while j < n && is_op_char(cs[j])
                invariant
                    start < j <= n,
                    n == cs@.len(),
                    op_run(cs@, j as int) == op_run(cs@, start as int + 1),
                decreases n - j,
            {
                j = j + 1;
            }
            proof {
                assert(op_run(cs@, j as int) == j as int);
            }
            let tok = Token::Op(chars_substring(&cs, start, j));
            let span = Span::new(offs[start], offs[j]);
            proof {
                assert(span == lex_span(cs@, start as int, j as int));
                assert(toks_view(toks@.push((tok, span))) =~= old_toks.push(
                    (TokenV::Op(cs@.subrange(start as int, j as int)), span),
                ));
                assert(old_toks.push(
                    (TokenV::Op(cs@.subrange(start as int, j as int)), span),
                ) + spec_lex_at(cs@, j as int).0 =~= old_toks + spec_lex_at(cs@, start as int).0);
            }
            toks.push((tok, span));
            i = j;
        } else if is_ctrl(c) {
            let tok = Token::Ctrl(c);
            let span = Span::new(offs[i], offs[i + 1]);
            proof {
                assert(span == lex_span(cs@, i as int, i as int + 1));
                assert(toks_view(toks@.push((tok, span))) =~= old_toks.push(
                    (TokenV::Ctrl(c), span),
                ));
                assert(old_toks.push((TokenV::Ctrl(c), span)) + spec_lex_at(cs@, i as int + 1).0
                    =~= old_toks + spec_lex_at(cs@, i as int).0);
            }
            toks.push((tok, span));
            i = i + 1;
        } else if is_ident_start(c) {
            let start = i;
            let mut j = i + 1;
            while j < n && is_ident_continue(cs[j])
                invariant
                    start < j <= n,
                    n == cs@.len(),
                    ident_run(cs@, j as int) == ident_run(cs@, start as int + 1),
                decreases n - j,
            {
                j = j + 1;
            }
            proof {
                assert(ident_run(cs@, j as int) == j as int);
            }
            let tok = classify_ident(chars_substring(&cs, start, j));
            let span = Span::new(offs[start], offs[j]);
            proof {
                assert(span == lex_span(cs@, start as int, j as int));
                assert(toks_view(toks@.push((tok, span))) =~= old_toks.push(
                    (spec_classify(cs@.subrange(start as int, j as int)), span),
                ));
                assert(old_toks.push(
                    (spec_classify(cs@.subrange(start as int, j as int)), span),
                ) + spec_lex_at(cs@, j as int).0 =~= old_toks + spec_lex_at(cs@, start as int).0);
            }
            toks.push((tok, span));
            i = j;
        } else {
            // Skip-and-retry recovery: report the character and move on.
            let e = Error::SyntaxError { span: Span::new(offs[i], offs[i + 1]) };
            let ghost ev = crate::error::error_view(e);
            proof {
                assert(ev == ErrorV::SyntaxError { span: lex_span(cs@, i as int, i as int + 1) });
            }
            errors.push(e);
            proof {
                assert(error_seq_view(errors@) =~= old_errs.push(ev));
                assert(old_errs.push(ev) + spec_lex_at(cs@, i as int + 1).1 =~= old_errs
                    + spec_lex_at(cs@, i as int).1);
            }
            i = i + 1;
        }
    }
    proof {
        assert(spec_lex_at(cs@, n as int) == (
            Seq::<(TokenV, Span)>::empty(),
            Seq::<ErrorV>::empty(),
        ));
        assert(toks_view(toks@) + Seq::<(TokenV, Span)>::empty() =~= toks_view(toks@));
        assert(error_seq_view(errors@) + Seq::<ErrorV>::empty() =~= error_seq_view(errors@));
    }
    if errors.len() > 0 {
        Err(errors)
    } else {
        Ok(toks)
    }
}

} // verus!
