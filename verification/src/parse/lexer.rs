//! Lexical structure of `.loom` files: identifiers, integers, quoted strings,
//! punctuation, whitespace and `//` line comments.
use vstd::prelude::*;
use crate::text::push_char;

verus! {

broadcast use vstd::string::group_string_axioms;

/// A token of the `.loom` language.
#[derive(Debug)]
pub enum Token {
    /// `[A-Za-z_][A-Za-z0-9_]*` (keywords are identifiers too)
    Ident(String),
    /// `[0-9]+`
    Int(String),
    /// A double-quoted string; the field holds the text between the quotes.
    Str(String),
    LBrace,
    RBrace,
    LBracket,
    RBracket,
    Comma,
    Arrow,
    Star,
}

/// A token with the character range `[start, end)` it was read from.
#[derive(Debug)]
pub struct Lexeme {
    pub token: Token,
    pub start: usize,
    pub end: usize,
}

pub open spec fn is_ws(c: char) -> bool {
    c == ' ' || c == '\t' || c == '\r' || c == '\n'
}

pub open spec fn is_alpha(c: char) -> bool {
    ('a' <= c && c <= 'z') || ('A' <= c && c <= 'Z')
}

pub open spec fn is_digit(c: char) -> bool {
    '0' <= c && c <= '9'
}

pub open spec fn is_ident_start(c: char) -> bool {
    is_alpha(c) || c == '_'
}

pub open spec fn is_ident_char(c: char) -> bool {
    is_ident_start(c) || is_digit(c)
}

/// Whitespace and `//` comments, each comment ended by its newline.
pub open spec fn is_trivia(s: Seq<char>) -> bool
    decreases s.len(), 1int,
{
    if s.len() == 0 {
        true
    } else if is_ws(s[0]) {
        is_trivia(s.drop_first())
    } else if s.len() >= 2 && s[0] == '/' && s[1] == '/' {
        in_comment_trivia(s.subrange(2, s.len() as int))
    } else {
        false
    }
}

/// The rest of a line comment, its newline, then trivia.
pub open spec fn in_comment_trivia(s: Seq<char>) -> bool
    decreases s.len(), 0int,
{
    if s.len() == 0 {
        false
    } else if s[0] == '\n' {
        is_trivia(s.drop_first())
    } else {
        in_comment_trivia(s.drop_first())
    }
}

/// Whitespace and `//` comments at the end of the text, where the last comment may run to
/// the end without a newline.
pub open spec fn is_end_trivia(s: Seq<char>) -> bool
    decreases s.len(), 1int,
{
    if s.len() == 0 {
        true
    } else if is_ws(s[0]) {
        is_end_trivia(s.drop_first())
    } else if s.len() >= 2 && s[0] == '/' && s[1] == '/' {
        in_end_comment(s.subrange(2, s.len() as int))
    } else {
        false
    }
}

/// The rest of a line comment at the end of the text, then end trivia.
pub open spec fn in_end_comment(s: Seq<char>) -> bool
    decreases s.len(), 0int,
{
    if s.len() == 0 {
        true
    } else if s[0] == '\n' {
        is_end_trivia(s.drop_first())
    } else {
        in_end_comment(s.drop_first())
    }
}

pub open spec fn all_ident_chars(s: Seq<char>) -> bool {
    forall|i: int| 0 <= i < s.len() ==> is_ident_char(#[trigger] s[i])
}

pub open spec fn all_digits(s: Seq<char>) -> bool {
    forall|i: int| 0 <= i < s.len() ==> is_digit(#[trigger] s[i])
}

pub open spec fn no_quote(s: Seq<char>) -> bool {
    forall|i: int| 0 <= i < s.len() ==> #[trigger] s[i] != '"'
}

/// The source text of a token.
pub open spec fn token_text(t: Token) -> Seq<char> {
    match t {
        Token::Ident(s) => s@,
        Token::Int(s) => s@,
        Token::Str(s) => seq!['"'] + s@ + seq!['"'],
        Token::LBrace => seq!['{'],
        Token::RBrace => seq!['}'],
        Token::LBracket => seq!['['],
        Token::RBracket => seq![']'],
        Token::Comma => seq![','],
        Token::Arrow => seq!['-', '>'],
        Token::Star => seq!['*'],
    }
}

/// The shape each kind of token must have.
pub open spec fn token_wf(t: Token) -> bool {
    match t {
        Token::Ident(s) => s@.len() > 0 && is_ident_start(s@[0]) && all_ident_chars(s@),
        Token::Int(s) => s@.len() > 0 && all_digits(s@),
        Token::Str(s) => no_quote(s@),
        _ => true,
    }
}

/// Where the trivia before token `i` starts: the end of the token before it.
pub open spec fn gap_start(ls: Seq<Lexeme>, i: int) -> int {
    if i == 0 {
        0
    } else {
        ls[i - 1].end as int
    }
}

/// Lexeme `l` is read from `cs`, and identifiers and integers are read as far as they go.
pub open spec fn lexeme_ok(cs: Seq<char>, l: Lexeme) -> bool {
    &&& l.start < l.end <= cs.len()
    &&& cs.subrange(l.start as int, l.end as int) == token_text(l.token)
    &&& token_wf(l.token)
    &&& (l.token is Ident || l.token is Int) ==> (l.end == cs.len() || !is_ident_char(
        cs[l.end as int],
    ))
}

/// `ls` reads `cs[0, upto)` as trivia and tokens, in order, ending with a token (or empty).
pub open spec fn lexes_prefix(cs: Seq<char>, ls: Seq<Lexeme>, upto: int) -> bool {
    &&& upto == gap_start(ls, ls.len() as int)
    &&& forall|i: int|
        0 <= i < ls.len() ==> {
            &&& gap_start(ls, i) <= (#[trigger] ls[i]).start
            &&& is_trivia(cs.subrange(gap_start(ls, i), ls[i].start as int))
            &&& lexeme_ok(cs, ls[i])
        }
}

/// `ls` is the lexing of all of `cs`.
pub open spec fn lexes(cs: Seq<char>, ls: Seq<Lexeme>) -> bool {
    let e = gap_start(ls, ls.len() as int);
    &&& lexes_prefix(cs, ls, e)
    &&& e <= cs.len()
    &&& is_end_trivia(cs.subrange(e, cs.len() as int))
}

pub open spec fn has_closing_quote(cs: Seq<char>, p: int) -> bool {
    exists|q: int| p < q < cs.len() && cs[q] == '"'
}

pub open spec fn int_token_at(cs: Seq<char>, p: int) -> bool {
    exists|q: int|
        p < q <= cs.len() && all_digits(cs.subrange(p, q)) && (q == cs.len() || !is_ident_char(
            cs[q],
        ))
}

/// No trivia and no token can begin at `p`.
pub open spec fn nothing_starts_at(cs: Seq<char>, p: int) -> bool {
    let c = cs[p];
    &&& !is_ws(c)
    &&& !(c == '/' && p + 1 < cs.len() && cs[p + 1] == '/')
    &&& !is_ident_start(c)
    &&& !(is_digit(c) && int_token_at(cs, p))
    &&& !(c == '"' && has_closing_quote(cs, p))
    &&& c != '{' && c != '}' && c != '[' && c != ']' && c != ',' && c != '*'
    &&& !(c == '-' && p + 1 < cs.len() && cs[p + 1] == '>')
}

pub fn is_ws_char(c: char) -> (b: bool)
    ensures
        b == is_ws(c),
{
    c == ' ' || c == '\t' || c == '\r' || c == '\n'
}

pub fn is_digit_char(c: char) -> (b: bool)
    ensures
        b == is_digit(c),
{
    '0' <= c && c <= '9'
}

pub fn is_ident_start_char(c: char) -> (b: bool)
    ensures
        b == is_ident_start(c),
{
    ('a' <= c && c <= 'z') || ('A' <= c && c <= 'Z') || c == '_'
}

pub fn is_ident_char_exec(c: char) -> (b: bool)
    ensures
        b == is_ident_char(c),
{
    is_ident_start_char(c) || is_digit_char(c)
}

/// A `String` holding `cs[from, to)`.
pub fn string_from(cs: &Vec<char>, from: usize, to: usize) -> (s: String)
    requires
        from <= to <= cs.len(),
    ensures
        s@ == cs@.subrange(from as int, to as int),
{
    let mut s = String::new();
    let mut i = from;
    while i < to
        invariant
            from <= i <= to <= cs.len(),
            s@ == cs@.subrange(from as int, i as int),
        decreases to - i,
    {
        push_char(&mut s, cs[i]);
        assert(cs@.subrange(from as int, i + 1) == cs@.subrange(from as int, i as int).push(cs@[i as int]));
        i = i + 1;
    }
    s
}

/// Skips whitespace and comments from `p`; stops at the first character that is neither.
fn skip_trivia(cs: &Vec<char>, p: usize) -> (q: usize)
    requires
        p <= cs.len(),
    ensures
        p <= q <= cs.len(),
        q < cs.len() ==> is_trivia(cs@.subrange(p as int, q as int)),
        q == cs.len() ==> is_end_trivia(cs@.subrange(p as int, q as int)),
        q < cs.len() ==> !is_ws(cs@[q as int]) && !(cs@[q as int] == '/' && q + 1 < cs.len()
            && cs@[q + 1] == '/'),
{
    let mut q = p;
    loop
        invariant
            p <= q <= cs.len(),
            forall|r: int|
                q <= r <= cs.len() && #[trigger] is_trivia(cs@.subrange(q as int, r))
                    ==> is_trivia(cs@.subrange(p as int, r)),
            is_end_trivia(cs@.subrange(q as int, cs.len() as int)) ==> is_end_trivia(
                cs@.subrange(p as int, cs.len() as int),
            ),
        ensures
            p <= q <= cs.len(),
            q < cs.len() ==> is_trivia(cs@.subrange(p as int, q as int)),
            q == cs.len() ==> is_end_trivia(cs@.subrange(p as int, q as int)),
            q < cs.len() ==> !is_ws(cs@[q as int]) && !(cs@[q as int] == '/' && q + 1 < cs.len()
                && cs@[q + 1] == '/'),
        decreases cs.len() - q,
    {
        if q < cs.len() && is_ws_char(cs[q]) {
            assert forall|r: int|
                q + 1 <= r <= cs.len() && #[trigger] is_trivia(cs@.subrange(q + 1, r)) implies
                is_trivia(cs@.subrange(p as int, r)) by {
                assert(cs@.subrange(q as int, r).drop_first() == cs@.subrange(q + 1, r));
                assert(is_trivia(cs@.subrange(q as int, r)));
            }
            assert(cs@.subrange(q as int, cs.len() as int).drop_first() == cs@.subrange(q + 1, cs.len() as int));
            q = q + 1;
        } else if q < cs.len() && cs[q] == '/' && q + 1 < cs.len() && cs[q + 1] == '/' {
            let start = q;
            q = q + 2;
            assert forall|r: int|
                q <= r <= cs.len() && #[trigger] in_comment_trivia(cs@.subrange(q as int, r)) implies
                is_trivia(cs@.subrange(p as int, r)) by {
                assert(cs@.subrange(start as int, r).subrange(2, r - start) == cs@.subrange(q as int, r));
                assert(is_trivia(cs@.subrange(start as int, r)));
            }
            assert(cs@.subrange(start as int, cs.len() as int).subrange(2, cs.len() - start) == cs@.subrange(
                q as int,
                cs.len() as int,
            ));
            while q < cs.len() && cs[q] != '\n'
                invariant
                    start + 2 <= q <= cs.len(),
                    forall|r: int|
                        q <= r <= cs.len() && #[trigger] in_comment_trivia(cs@.subrange(q as int, r))
                            ==> is_trivia(cs@.subrange(p as int, r)),
                    in_end_comment(cs@.subrange(q as int, cs.len() as int)) ==> is_end_trivia(
                        cs@.subrange(p as int, cs.len() as int),
                    ),
                decreases cs.len() - q,
            {
                assert forall|r: int|
                    q + 1 <= r <= cs.len() && #[trigger] in_comment_trivia(cs@.subrange(q + 1, r)) implies
                    is_trivia(cs@.subrange(p as int, r)) by {
                    assert(cs@.subrange(q as int, r).drop_first() == cs@.subrange(q + 1, r));
                    assert(in_comment_trivia(cs@.subrange(q as int, r)));
                }
                assert(cs@.subrange(q as int, cs.len() as int).drop_first() == cs@.subrange(q + 1, cs.len() as int));
                q = q + 1;
            }
            if q < cs.len() {
                assert forall|r: int|
                    q + 1 <= r <= cs.len() && #[trigger] is_trivia(cs@.subrange(q + 1, r)) implies
                    is_trivia(cs@.subrange(p as int, r)) by {
                    assert(cs@.subrange(q as int, r).drop_first() == cs@.subrange(q + 1, r));
                    assert(in_comment_trivia(cs@.subrange(q as int, r)));
                }
                assert(cs@.subrange(q as int, cs.len() as int).drop_first() == cs@.subrange(q + 1, cs.len() as int));
                q = q + 1;
            } else {
                assert(in_end_comment(cs@.subrange(q as int, q as int)));
                return q;
            }
        } else {
            assert(is_trivia(cs@.subrange(q as int, q as int)));
            assert(is_end_trivia(cs@.subrange(q as int, q as int)));
            break;
        }
    }
    q
}


/// The character range `[start, end)` of a lexeme is read as `token`.
fn make_lexeme(token: Token, start: usize, end: usize) -> (l: Lexeme)
    ensures
        l.token == token,
        l.start == start,
        l.end == end,
{
    Lexeme { token, start, end }
}

/// The lexer's failure: the index of a character at which no token and no trivia can begin.
pub open spec fn lex_error_at(cs: Seq<char>, p: int) -> bool {
    &&& 0 <= p < cs.len()
    &&& nothing_starts_at(cs, p)
    &&& exists|ls: Seq<Lexeme>|
        #[trigger] lexes_prefix(cs, ls, gap_start(ls, ls.len() as int)) && gap_start(
            ls,
            ls.len() as int,
        ) <= p && is_trivia(cs.subrange(gap_start(ls, ls.len() as int), p))
}

/// Splits `cs` into tokens.
///
/// On success the tokens cover the input exactly, separated by whitespace and comments;
/// otherwise the result is the position of the first character that starts neither.
#[verifier::spinoff_prover]
#[verifier::rlimit(60)]
pub fn tokenize(cs: &Vec<char>) -> (r: Result<Vec<Lexeme>, usize>)
    ensures
        r matches Ok(ls) ==> lexes(cs@, ls@),
        r matches Err(p) ==> lex_error_at(cs@, p as int),
{
    let mut ls: Vec<Lexeme> = Vec::new();
    let mut pos: usize = 0;
    loop
        invariant
            pos <= cs.len(),
            lexes_prefix(cs@, ls@, pos as int),
        decreases cs.len() - pos,
    {
        let q = skip_trivia(cs, pos);
        if q == cs.len() {
            return Ok(ls);
        }
        let c = cs[q];
        let tok: Token;
        let end: usize;
        if is_ident_start_char(c) {
            let mut e = q + 1;
            while e < cs.len() && is_ident_char_exec(cs[e])
                invariant
                    q < e <= cs.len(),
                    all_ident_chars(cs@.subrange(q as int, e as int)),
                decreases cs.len() - e,
            {
                assert(cs@.subrange(q as int, e + 1) == cs@.subrange(q as int, e as int).push(cs@[e as int]));
                e = e + 1;
            }
            tok = Token::Ident(string_from(cs, q, e));
            end = e;
        } else if is_digit_char(c) {
            let mut e = q + 1;
            while e < cs.len() && is_digit_char(cs[e])
                invariant
                    q < e <= cs.len(),
                    all_digits(cs@.subrange(q as int, e as int)),
                decreases cs.len() - e,
            {
                assert(cs@.subrange(q as int, e + 1) == cs@.subrange(q as int, e as int).push(cs@[e as int]));
                e = e + 1;
            }
            if e < cs.len() && is_ident_char_exec(cs[e]) {
                assert(!int_token_at(cs@, q as int)) by {
                    assert forall|k: int|
                        q < k <= cs.len() && all_digits(#[trigger] cs@.subrange(q as int, k)) implies
                        !(k == cs.len() || !is_ident_char(cs@[k])) by {
                        if k > e {
                            assert(cs@.subrange(q as int, k)[e - q] == cs@[e as int]);
                        } else if k < e {
                            assert(cs@.subrange(q as int, e as int)[k - q] == cs@[k]);
                        }
                    }
                }
                assert(is_trivia(cs@.subrange(pos as int, q as int)));
                return Err(q);
            }
            tok = Token::Int(string_from(cs, q, e));
            end = e;
        } else if c == '"' {
            let mut e = q + 1;
            while e < cs.len() && cs[e] != '"'
                invariant
                    q < e <= cs.len(),
                    no_quote(cs@.subrange(q + 1, e as int)),
                decreases cs.len() - e,
            {
                assert(cs@.subrange(q + 1, e + 1) == cs@.subrange(q + 1, e as int).push(cs@[e as int]));
                e = e + 1;
            }
            if e == cs.len() {
                assert(!has_closing_quote(cs@, q as int)) by {
                    assert forall|k: int| q < k < cs.len() implies cs@[k] != '"' by {
                        assert(cs@.subrange(q + 1, e as int)[k - q - 1] == cs@[k]);
                    }
                }
                assert(is_trivia(cs@.subrange(pos as int, q as int)));
                return Err(q);
            }
            let body = string_from(cs, q + 1, e);
            assert(cs@.subrange(q as int, e + 1) == seq!['"'] + body@ + seq!['"']);
            tok = Token::Str(body);
            end = e + 1;
        } else if c == '{' {
            tok = Token::LBrace;
            end = q + 1;
            assert(cs@.subrange(q as int, end as int) =~= token_text(tok));
        } else if c == '}' {
            tok = Token::RBrace;
            end = q + 1;
            assert(cs@.subrange(q as int, end as int) =~= token_text(tok));
        } else if c == '[' {
            tok = Token::LBracket;
            end = q + 1;
            assert(cs@.subrange(q as int, end as int) =~= token_text(tok));
        } else if c == ']' {
            tok = Token::RBracket;
            end = q + 1;
            assert(cs@.subrange(q as int, end as int) =~= token_text(tok));
        } else if c == ',' {
            tok = Token::Comma;
            end = q + 1;
            assert(cs@.subrange(q as int, end as int) =~= token_text(tok));
        } else if c == '*' {
            tok = Token::Star;
            end = q + 1;
            assert(cs@.subrange(q as int, end as int) =~= token_text(tok));
        } else if c == '-' && q + 1 < cs.len() && cs[q + 1] == '>' {
            tok = Token::Arrow;
            end = q + 2;
            assert(cs@.subrange(q as int, end as int) =~= token_text(tok));
        } else {
            assert(is_trivia(cs@.subrange(pos as int, q as int)));
            return Err(q);
        }
        let l = make_lexeme(tok, q, end);
        assert(lexeme_ok(cs@, l));
        let ghost old_ls = ls@;
        ls.push(l);
        assert forall|i: int| 0 <= i < ls@.len() implies {
            &&& gap_start(ls@, i) <= (#[trigger] ls@[i]).start
            &&& is_trivia(cs@.subrange(gap_start(ls@, i), ls@[i].start as int))
            &&& lexeme_ok(cs@, ls@[i])
        } by {
            if i < old_ls.len() {
                assert(ls@[i] == old_ls[i]);
                if i > 0 {
                    assert(ls@[i - 1] == old_ls[i - 1]);
                }
            }
        }
        pos = end;
    }
}
/// Trivia cannot go on at position `i` of `s`: the character there is no whitespace and does
/// not begin a comment.
pub open spec fn blocks_trivia(s: Seq<char>, i: int) -> bool {
    !is_ws(s[i]) && !(s[i] == '/' && i + 1 < s.len() && s[i + 1] == '/')
}

/// Trivia that ends where trivia cannot go on is all the trivia there is: no longer run of
/// trivia from the same place passes that point.
proof fn lemma_trivia_stops(a: Seq<char>, b: Seq<char>)
    requires
        is_trivia(a),
        a.len() <= b.len(),
        a == b.take(a.len() as int),
        a.len() < b.len() ==> blocks_trivia(b, a.len() as int),
        is_trivia(b) || is_end_trivia(b),
    ensures
        a.len() == b.len(),
    decreases a.len(), 1int,
{
    if a.len() > 0 {
        assert(a[0] == b[0]);
        if is_ws(a[0]) {
            assert(a.drop_first() == b.drop_first().take(a.len() - 1));
            lemma_trivia_stops(a.drop_first(), b.drop_first());
        } else {
            assert(a[1] == b[1]);
            let a2 = a.subrange(2, a.len() as int);
            let b2 = b.subrange(2, b.len() as int);
            assert(a2 == b2.take(a2.len() as int));
            lemma_comment_stops(a2, b2);
        }
    }
}

proof fn lemma_comment_stops(a: Seq<char>, b: Seq<char>)
    requires
        in_comment_trivia(a),
        a.len() <= b.len(),
        a == b.take(a.len() as int),
        a.len() < b.len() ==> blocks_trivia(b, a.len() as int),
        in_comment_trivia(b) || in_end_comment(b),
    ensures
        a.len() == b.len(),
    decreases a.len(), 0int,
{
    assert(a[0] == b[0]);
    assert(a.drop_first() == b.drop_first().take(a.len() - 1));
    if a[0] == '\n' {
        lemma_trivia_stops(a.drop_first(), b.drop_first());
    } else {
        lemma_comment_stops(a.drop_first(), b.drop_first());
    }
}

/// No trivia can go on at the first character of a token.
proof fn lemma_token_blocks(cs: Seq<char>, l: Lexeme)
    requires
        lexeme_ok(cs, l),
    ensures
        blocks_trivia(cs, l.start as int),
        !is_ws(cs[l.start as int]),
        cs[l.start as int] != '/',
{
    let t = cs.subrange(l.start as int, l.end as int);
    assert(t[0] == cs[l.start as int]);
    match l.token {
        Token::Ident(x) => {
            assert(x@[0] == t[0]);
        },
        Token::Int(x) => {
            assert(x@[0] == t[0]);
        },
        _ => {},
    }
}

/// Two tokens read from the same place are the same token, read as far.
#[verifier::spinoff_prover]
#[verifier::rlimit(40)]
proof fn lemma_token_unique(cs: Seq<char>, l1: Lexeme, l2: Lexeme)
    requires
        lexeme_ok(cs, l1),
        lexeme_ok(cs, l2),
        l1.start == l2.start,
    ensures
        l1.end == l2.end,
        crate::parse::grammar::tok_view(l1.token) == crate::parse::grammar::tok_view(l2.token),
{
    let p = l1.start as int;
    let t1 = cs.subrange(p, l1.end as int);
    let t2 = cs.subrange(p, l2.end as int);
    assert(t1 == token_text(l1.token) && t2 == token_text(l2.token));
    assert(t1.len() == l1.end - p && t2.len() == l2.end - p);
    assert(t1[0] == cs[p] && t2[0] == cs[p]);
    match (l1.token, l2.token) {
        (Token::Ident(x), Token::Ident(y)) => {
            assert(t1 == x@ && t2 == y@);
            if l1.end < l2.end {
                assert(t2[l1.end - p] == cs[l1.end as int]);
                assert(is_ident_char(y@[l1.end - p]));
            }
            if l2.end < l1.end {
                assert(t1[l2.end - p] == cs[l2.end as int]);
                assert(is_ident_char(x@[l2.end - p]));
            }
            assert(x@ =~= y@);
        },
        (Token::Int(x), Token::Int(y)) => {
            assert(t1 == x@ && t2 == y@);
            if l1.end < l2.end {
                assert(t2[l1.end - p] == cs[l1.end as int]);
                assert(is_digit(y@[l1.end - p]));
            }
            if l2.end < l1.end {
                assert(t1[l2.end - p] == cs[l2.end as int]);
                assert(is_digit(x@[l2.end - p]));
            }
            assert(x@ =~= y@);
        },
        (Token::Str(x), Token::Str(y)) => {
            lemma_str_unique(cs, p, l1.end as int, l2.end as int, x@, y@);
        },
        (Token::Ident(x), _) => {
            assert(t1 == x@);
            assert(x@[0] == t1[0]);
        },
        (_, Token::Ident(y)) => {
            assert(t2 == y@);
            assert(y@[0] == t2[0]);
        },
        (Token::Int(x), _) => {
            assert(t1 == x@);
            assert(x@[0] == t1[0]);
        },
        (_, Token::Int(y)) => {
            assert(t2 == y@);
            assert(y@[0] == t2[0]);
        },
        (Token::Arrow, _) => {
            assert(t1 == token_text(Token::Arrow));
        },
        (_, Token::Arrow) => {
            assert(t2 == token_text(Token::Arrow));
        },
        _ => {
            assert(t1 == token_text(l1.token));
            assert(t2 == token_text(l2.token));
        },
    }
}

proof fn lemma_str_unique(cs: Seq<char>, p: int, e1: int, e2: int, x: Seq<char>, y: Seq<char>)
    requires
        0 <= p < e1 <= cs.len(),
        p < e2 <= cs.len(),
        cs.subrange(p, e1) == seq!['"'] + x + seq!['"'],
        cs.subrange(p, e2) == seq!['"'] + y + seq!['"'],
        no_quote(x),
        no_quote(y),
    ensures
        e1 == e2,
        x == y,
{
    let t1 = cs.subrange(p, e1);
    let t2 = cs.subrange(p, e2);
    assert(t1.len() == e1 - p && t1.len() == x.len() + 2);
    assert(t2.len() == e2 - p && t2.len() == y.len() + 2);
    if e1 < e2 {
        assert(t1[e1 - 1 - p] == cs[e1 - 1]);
        assert(t2[e1 - 1 - p] == cs[e1 - 1]);
        assert(t2[e1 - 1 - p] == y[e1 - 2 - p]);
    }
    if e2 < e1 {
        assert(t2[e2 - 1 - p] == cs[e2 - 1]);
        assert(t1[e2 - 1 - p] == cs[e2 - 1]);
        assert(t1[e2 - 1 - p] == x[e2 - 2 - p]);
    }
    assert(x =~= t1.subrange(1, t1.len() - 1));
    assert(y =~= t2.subrange(1, t2.len() - 1));
}

/// Where trivia from `g` reaches a character that no trivia can pass, no run of trivia from
/// `g` goes beyond it.
proof fn lemma_gap_meet(cs: Seq<char>, g: int, s1: int, s2: int)
    requires
        0 <= g <= s1 < cs.len(),
        g <= s2 <= cs.len(),
        is_trivia(cs.subrange(g, s1)),
        !is_ws(cs[s1]),
        cs[s1] != '/' || !(s1 + 1 < cs.len() && cs[s1 + 1] == '/'),
        is_trivia(cs.subrange(g, s2)) || (s2 == cs.len() && is_end_trivia(cs.subrange(g, s2))),
    ensures
        s2 <= s1,
{
    if s2 > s1 {
        let a = cs.subrange(g, s1);
        let b = cs.subrange(g, s2);
        assert(a == b.take(a.len() as int));
        assert(b[a.len() as int] == cs[s1]);
        if s1 + 1 < s2 {
            assert(b[a.len() + 1int] == cs[s1 + 1]);
        }
        lemma_trivia_stops(a, b);
    }
}

/// Two readings of the start of a text as trivia and tokens agree on the tokens they share.
#[verifier::spinoff_prover]
#[verifier::rlimit(40)]
proof fn lemma_lexings_agree(cs: Seq<char>, ls1: Seq<Lexeme>, u1: int, ls2: Seq<Lexeme>, u2: int, i: int)
    requires
        lexes_prefix(cs, ls1, u1),
        lexes_prefix(cs, ls2, u2),
        0 <= i <= ls1.len(),
        i <= ls2.len(),
    ensures
        forall|j: int| 0 <= j < i ==> ls1[j].start == ls2[j].start && ls1[j].end == ls2[j].end
            && crate::parse::grammar::tok_view(#[trigger] ls1[j].token) == crate::parse::grammar::tok_view(ls2[j].token),
    decreases i,
{
    if i > 0 {
        lemma_lexings_agree(cs, ls1, u1, ls2, u2, i - 1);
        let k = i - 1;
        let g = gap_start(ls1, k);
        assert(g == gap_start(ls2, k));
        let l1 = ls1[k];
        let l2 = ls2[k];
        lemma_token_blocks(cs, l1);
        lemma_token_blocks(cs, l2);
        lemma_gap_meet(cs, g, l1.start as int, l2.start as int);
        lemma_gap_meet(cs, g, l2.start as int, l1.start as int);
        lemma_token_unique(cs, l1, l2);
    }
}

/// A text is read as trivia and tokens in one way only: any two lexings of it have the same
/// tokens.
pub proof fn lemma_lexing_unique(cs: Seq<char>, ls1: Seq<Lexeme>, ls2: Seq<Lexeme>)
    requires
        lexes(cs, ls1),
        lexes(cs, ls2),
    ensures
        ls1.len() == ls2.len(),
        forall|j: int| 0 <= j < ls1.len() ==> crate::parse::grammar::tok_view(#[trigger] ls1[j].token)
            == crate::parse::grammar::tok_view(ls2[j].token),
{
    lemma_end_blocks_token(cs, ls1, ls2);
    lemma_end_blocks_token(cs, ls2, ls1);
    lemma_lexings_agree(cs, ls1, gap_start(ls1, ls1.len() as int), ls2, gap_start(ls2, ls2.len() as int), ls1.len() as int);
}

/// Where one lexing of the whole text ends after `ls1.len()` tokens, no lexing of a part of
/// it has a further token.
#[verifier::spinoff_prover]
#[verifier::rlimit(40)]
proof fn lemma_end_blocks_token(cs: Seq<char>, ls1: Seq<Lexeme>, ls2: Seq<Lexeme>)
    requires
        lexes(cs, ls1),
        lexes_prefix(cs, ls2, gap_start(ls2, ls2.len() as int)),
    ensures
        ls2.len() <= ls1.len(),
{
    if ls2.len() > ls1.len() {
        let n = ls1.len() as int;
        lemma_lexings_agree(cs, ls1, gap_start(ls1, n), ls2, gap_start(ls2, ls2.len() as int), n);
        let g = gap_start(ls1, n);
        assert(g == gap_start(ls2, n));
        let l = ls2[n];
        lemma_token_blocks(cs, l);
        lemma_gap_meet(cs, g, l.start as int, cs.len() as int);
    }
}

/// No token can begin where nothing starts.
proof fn lemma_nothing_starts(cs: Seq<char>, l: Lexeme)
    requires
        lexeme_ok(cs, l),
        l.start < cs.len(),
    ensures
        !nothing_starts_at(cs, l.start as int),
{
    let p = l.start as int;
    let t = cs.subrange(p, l.end as int);
    assert(t == token_text(l.token));
    assert(t[0] == cs[p]);
    match l.token {
        Token::Ident(x) => {
            assert(x@[0] == t[0]);
        },
        Token::Int(x) => {
            assert(x@[0] == t[0]);
            assert(all_digits(cs.subrange(p, l.end as int)));
        },
        Token::Str(x) => {
            assert(t[t.len() - 1] == cs[l.end - 1]);
        },
        Token::Arrow => {
            assert(t[1] == cs[p + 1]);
        },
        _ => {},
    }
}

/// A text with a lexing has no point at which the lexer fails.
#[verifier::spinoff_prover]
#[verifier::rlimit(40)]
pub proof fn lemma_lexing_has_no_error(cs: Seq<char>, ls: Seq<Lexeme>, p: int)
    requires
        lexes(cs, ls),
    ensures
        !lex_error_at(cs, p),
{
    if lex_error_at(cs, p) {
        let lp = choose|lp: Seq<Lexeme>|
            #[trigger] lexes_prefix(cs, lp, gap_start(lp, lp.len() as int)) && gap_start(lp, lp.len() as int) <= p
                && is_trivia(cs.subrange(gap_start(lp, lp.len() as int), p));
        let k = lp.len() as int;
        lemma_end_blocks_token(cs, ls, lp);
        lemma_lexings_agree(cs, lp, gap_start(lp, k), ls, gap_start(ls, ls.len() as int), k);
        let g = gap_start(lp, k);
        assert(g == gap_start(ls, k));
        if ls.len() == k {
            lemma_gap_meet(cs, g, p, cs.len() as int);
        } else {
            let l = ls[k];
            lemma_token_blocks(cs, l);
            lemma_gap_meet(cs, g, p, l.start as int);
            lemma_gap_meet(cs, g, l.start as int, p);
            lemma_nothing_starts(cs, l);
        }
    }
}

} // verus!
