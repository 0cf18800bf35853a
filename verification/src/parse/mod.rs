pub mod ast;
pub mod grammar;
pub mod lexer;

use vstd::prelude::*;
use crate::error::LoomError;
use crate::parse::ast::{ActionDecl, ActionOutput, ActionType, Constraint, Declaration, EscapeDecl, Executor, GateKind, IncludeDecl, OutputKind, OverrideDecl, PhaseDecl, ProfileDecl, ProfileField, QueueDecl, StepDecl, TerminalDecl, WildcardTransitionDecl, Workflow};
use crate::parse::grammar::{TokV, action_body_tokens, action_type_tokens, constraint_word, constraints_tokens, decl_matches, decls_match, digits_value, executor_word, ident, ident_list_matches, kw, opt_str, output_kind_word, output_tokens, override_tokens, profile_field_matches, profile_fields_match, profile_matches, fields_cut, decls_cut, tok_view, version_matches, workflow_matches};
use crate::parse::lexer::{
    Lexeme, Token, lemma_lexing_has_no_error, lemma_lexing_unique, lexes, lex_error_at, tokenize,
};
use crate::text::chars_of;

verus! {

/// The tokens of a lexing, as values.
pub open spec fn lv(ls: Seq<Lexeme>) -> Seq<TokV> {
    Seq::new(ls.len(), |i: int| tok_view(ls[i].token))
}

/// The tokens `piece` stand in `t` from position `pos` on.
pub open spec fn tokens_at(t: Seq<TokV>, pos: int, piece: Seq<TokV>) -> bool {
    0 <= pos && pos + piece.len() <= t.len() && t.subrange(pos, pos + piece.len()) == piece
}

/// No string literal stands at position `i` of `t`.
pub open spec fn no_str_at(t: Seq<TokV>, i: int) -> bool {
    !(0 <= i < t.len() && t[i] is Str)
}

/// Declaration `d` is written by the tokens of `t` from `pos` to `e`.
pub open spec fn decl_at(t: Seq<TokV>, pos: int, e: int, d: Declaration) -> bool {
    0 <= pos < e <= t.len() && decl_matches(d, t.subrange(pos, e))
}

proof fn lemma_kw_differ(a: &str, b: &str, i: int)
    requires
        0 <= i < a@.len(),
        i < b@.len(),
        a@[i] != b@[i],
    ensures
        kw(a) != kw(b),
{
}

proof fn lemma_kw_len_differ(a: &str, b: &str)
    requires
        a@.len() != b@.len(),
    ensures
        kw(a) != kw(b),
{
}

/// The message of a syntax error.
fn parse_error(msg: &str) -> (m: String)
    ensures
        m@ == msg@,
{
    String::from_str(msg)
}

/// A syntax error as a loom error.
fn syntax_error(message: String) -> (e: LoomError)
    ensures
        e == (LoomError::Parse { message }),
{
    LoomError::Parse { message }
}

fn str_eq(s: &String, k: &str) -> (b: bool)
    ensures
        b == (s@ == k@),
{
    let t = String::from_str(k);
    *s == t
}

/// Whether token `pos` is the keyword `k`.
fn at_kw(ls: &Vec<Lexeme>, pos: usize, k: &str) -> (b: bool)
    ensures
        b == (pos < ls.len() && lv(ls@)[pos as int] == kw(k)),
{
    if pos < ls.len() {
        match &ls[pos].token {
            Token::Ident(s) => str_eq(s, k),
            _ => false,
        }
    } else {
        false
    }
}

/// The identifier at `pos`, if that token is one.
fn ident_at(ls: &Vec<Lexeme>, pos: usize) -> (r: Option<String>)
    ensures
        r matches Some(s) ==> pos < ls.len() && lv(ls@)[pos as int] == ident(s),
        r is None ==> !(pos < ls.len() && lv(ls@)[pos as int] is Ident),
{
    if pos < ls.len() {
        match &ls[pos].token {
            Token::Ident(s) => Some(s.clone()),
            _ => None,
        }
    } else {
        None
    }
}

/// The string literal at `pos`, if that token is one.
fn str_at(ls: &Vec<Lexeme>, pos: usize) -> (r: Option<String>)
    ensures
        r matches Some(s) ==> pos < ls.len() && lv(ls@)[pos as int] == TokV::Str(s@),
        r is None ==> !(pos < ls.len() && lv(ls@)[pos as int] is Str),
{
    if pos < ls.len() {
        match &ls[pos].token {
            Token::Str(s) => Some(s.clone()),
            _ => None,
        }
    } else {
        None
    }
}

fn at_lbrace(ls: &Vec<Lexeme>, pos: usize) -> (b: bool)
    ensures
        b == (pos < ls.len() && lv(ls@)[pos as int] == TokV::LBrace),
{
    pos < ls.len() && matches!(ls[pos].token, Token::LBrace)
}

fn at_rbrace(ls: &Vec<Lexeme>, pos: usize) -> (b: bool)
    ensures
        b == (pos < ls.len() && lv(ls@)[pos as int] == TokV::RBrace),
{
    pos < ls.len() && matches!(ls[pos].token, Token::RBrace)
}

fn at_lbracket(ls: &Vec<Lexeme>, pos: usize) -> (b: bool)
    ensures
        b == (pos < ls.len() && lv(ls@)[pos as int] == TokV::LBracket),
{
    pos < ls.len() && matches!(ls[pos].token, Token::LBracket)
}

fn at_rbracket(ls: &Vec<Lexeme>, pos: usize) -> (b: bool)
    ensures
        b == (pos < ls.len() && lv(ls@)[pos as int] == TokV::RBracket),
{
    pos < ls.len() && matches!(ls[pos].token, Token::RBracket)
}

fn at_comma(ls: &Vec<Lexeme>, pos: usize) -> (b: bool)
    ensures
        b == (pos < ls.len() && lv(ls@)[pos as int] == TokV::Comma),
{
    pos < ls.len() && matches!(ls[pos].token, Token::Comma)
}

fn at_arrow(ls: &Vec<Lexeme>, pos: usize) -> (b: bool)
    ensures
        b == (pos < ls.len() && lv(ls@)[pos as int] == TokV::Arrow),
{
    pos < ls.len() && matches!(ls[pos].token, Token::Arrow)
}

fn at_star(ls: &Vec<Lexeme>, pos: usize) -> (b: bool)
    ensures
        b == (pos < ls.len() && lv(ls@)[pos as int] == TokV::Star),
{
    pos < ls.len() && matches!(ls[pos].token, Token::Star)
}

/// `KEYWORD NAME ["Display"]`, the shape of queue, terminal and escape declarations.
fn parse_named(ls: &Vec<Lexeme>, pos: usize) -> (r: Result<(String, Option<String>, usize), String>)
    requires
        pos < ls.len(),
    ensures
        r matches Ok((name, display, e)) ==> pos + 2 <= e <= ls.len() && lv(ls@).subrange(
            pos as int,
            e as int,
        ) == seq![lv(ls@)[pos as int], ident(name)] + opt_str(display),
        r matches Ok((_, display, _)) ==> (display is None ==> no_str_at(lv(ls@), pos + 2)),
        pos + 1 < ls.len() && lv(ls@)[pos + 1] is Ident ==> r is Ok,
{
    let name = match ident_at(ls, pos + 1) {
        Some(n) => n,
        None => return Err(parse_error("expected an identifier")),
    };
    match str_at(ls, pos + 2) {
        Some(d) => {
            assert(lv(ls@).subrange(pos as int, pos + 3) =~= seq![lv(ls@)[pos as int], ident(name)]
                + opt_str(Some(d)));
            Ok((name, Some(d), pos + 3))
        },
        None => {
            assert(lv(ls@).subrange(pos as int, pos + 2) =~= seq![lv(ls@)[pos as int], ident(name)]
                + opt_str(None));
            Ok((name, None, pos + 2))
        },
    }
}

fn parse_executor(ls: &Vec<Lexeme>, pos: usize) -> (r: Option<Executor>)
    ensures
        r matches Some(e) ==> pos < ls.len() && lv(ls@)[pos as int] == executor_word(e),
        forall|x: Executor| pos < ls.len() && lv(ls@)[pos as int] == #[trigger] executor_word(x) ==> r == Some(x),
{
    proof {
        reveal_strlit("agent");
        reveal_strlit("human");
        lemma_kw_differ("agent", "human", 0);
    }
    if at_kw(ls, pos, "agent") {
        Some(Executor::Agent)
    } else if at_kw(ls, pos, "human") {
        Some(Executor::Human)
    } else {
        None
    }
}

/// `produce EXECUTOR` or `gate KIND EXECUTOR`
fn parse_action_type(ls: &Vec<Lexeme>, pos: usize) -> (r: Result<(ActionType, usize), String>)
    ensures
        r matches Ok((t, e)) ==> pos < e <= ls.len() && lv(ls@).subrange(pos as int, e as int)
            == action_type_tokens(t),
        forall|x: ActionType| #[trigger] tokens_at(lv(ls@), pos as int, action_type_tokens(x)) ==> (r matches Ok((
            _,
            e,
        )) && e == pos + action_type_tokens(x).len()),
{
    let ghost t = lv(ls@);
    proof {
        reveal_strlit("produce");
        reveal_strlit("gate");
        reveal_strlit("approve");
        reveal_strlit("auth");
        reveal_strlit("review");
        lemma_kw_differ("produce", "gate", 0);
        lemma_kw_differ("approve", "auth", 1);
        lemma_kw_differ("approve", "review", 0);
        lemma_kw_differ("auth", "review", 0);
        assert forall|x: ActionType| #[trigger] tokens_at(t, pos as int, action_type_tokens(x)) implies {
            &&& t[pos as int] == action_type_tokens(x)[0]
            &&& t[pos + 1] == action_type_tokens(x)[1]
            &&& (x is Gate ==> t[pos + 2] == action_type_tokens(x)[2])
        } by {
            let n = action_type_tokens(x).len();
            assert(t.subrange(pos as int, pos + n)[0] == t[pos as int]);
            assert(t.subrange(pos as int, pos + n)[1] == t[pos + 1]);
            if x is Gate {
                assert(t.subrange(pos as int, pos + n)[2] == t[pos + 2]);
            }
        }
    }
    if at_kw(ls, pos, "produce") {
        match parse_executor(ls, pos + 1) {
            Some(ex) => {
                let t = ActionType::Produce(ex);
                assert(lv(ls@).subrange(pos as int, pos + 2) =~= action_type_tokens(t));
                Ok((t, pos + 2))
            },
            None => Err(parse_error("expected an executor (agent or human)")),
        }
    } else if at_kw(ls, pos, "gate") {
        let g = if at_kw(ls, pos + 1, "approve") {
            GateKind::Approve
        } else if at_kw(ls, pos + 1, "auth") {
            GateKind::Auth
        } else if at_kw(ls, pos + 1, "review") {
            GateKind::Review
        } else {
            return Err(parse_error("expected a gate kind (approve, auth or review)"));
        };
        match parse_executor(ls, pos + 2) {
            Some(ex) => {
                let t = ActionType::Gate(g, ex);
                assert(lv(ls@).subrange(pos as int, pos + 3) =~= action_type_tokens(t));
                Ok((t, pos + 3))
            },
            None => Err(parse_error("expected an executor (agent or human)")),
        }
    } else {
        Err(parse_error("expected `produce` or `gate`"))
    }
}

/// `output KIND ["hint"]`, if the token at `pos` is `output`.
fn parse_output(ls: &Vec<Lexeme>, pos: usize) -> (r: Result<(Option<ActionOutput>, usize), String>)
    requires
        pos <= ls.len(),
    ensures
        r matches Ok((o, e)) ==> pos <= e <= ls.len() && lv(ls@).subrange(pos as int, e as int)
            == output_tokens(o),
        forall|x: Option<ActionOutput>|
            #[trigger] tokens_at(lv(ls@), pos as int, output_tokens(x)) && (x is None ==> !(pos < ls.len()
                && lv(ls@)[pos as int] == kw("output"))) && (x matches Some(o) && o.access_hint is None
                ==> no_str_at(lv(ls@), pos + 2)) ==> (r matches Ok((_, e)) && e == pos + output_tokens(x).len()),
{
    let ghost t = lv(ls@);
    proof {
        assert forall|x: Option<ActionOutput>| #[trigger] tokens_at(t, pos as int, output_tokens(x)) && x is Some implies {
            &&& t[pos as int] == kw("output")
            &&& t[pos + 1] == ident(x.unwrap().artifact_type)
            &&& (x.unwrap().access_hint is Some ==> t[pos + 2] == TokV::Str(x.unwrap().access_hint.unwrap()@))
        } by {
            let n = output_tokens(x).len();
            assert(t.subrange(pos as int, pos + n)[0] == t[pos as int]);
            assert(t.subrange(pos as int, pos + n)[1] == t[pos + 1]);
            if x.unwrap().access_hint is Some {
                assert(t.subrange(pos as int, pos + n)[2] == t[pos + 2]);
            }
        }
    }
    if !at_kw(ls, pos, "output") {
        assert(lv(ls@).subrange(pos as int, pos as int) =~= output_tokens(None));
        return Ok((None, pos));
    }
    let kind = match ident_at(ls, pos + 1) {
        Some(k) => k,
        None => return Err(parse_error("expected an output kind")),
    };
    match str_at(ls, pos + 2) {
        Some(h) => {
            let o = ActionOutput { artifact_type: kind, access_hint: Some(h) };
            assert(lv(ls@).subrange(pos as int, pos + 3) =~= output_tokens(Some(o)));
            Ok((Some(o), pos + 3))
        },
        None => {
            let o = ActionOutput { artifact_type: kind, access_hint: None };
            assert(lv(ls@).subrange(pos as int, pos + 2) =~= output_tokens(Some(o)));
            Ok((Some(o), pos + 2))
        },
    }
}

fn parse_constraint_kind(ls: &Vec<Lexeme>, pos: usize) -> (r: Option<Constraint>)
    ensures
        r matches Some(c) ==> pos < ls.len() && lv(ls@)[pos as int] == constraint_word(c),
        forall|x: Constraint| pos < ls.len() && lv(ls@)[pos as int] == #[trigger] constraint_word(x) ==> r == Some(x),
{
    proof {
        reveal_strlit("read_only");
        reveal_strlit("no_git_write");
        reveal_strlit("metadata_only");
        lemma_kw_differ("read_only", "no_git_write", 0);
        lemma_kw_differ("read_only", "metadata_only", 0);
        lemma_kw_differ("no_git_write", "metadata_only", 0);
    }
    if at_kw(ls, pos, "read_only") {
        Some(Constraint::ReadOnly)
    } else if at_kw(ls, pos, "no_git_write") {
        Some(Constraint::NoGitWrite)
    } else if at_kw(ls, pos, "metadata_only") {
        Some(Constraint::MetadataOnly)
    } else {
        None
    }
}


proof fn lemma_constraints_tokens(cs: Seq<Constraint>)
    ensures
        constraints_tokens(cs).len() == 2 * cs.len(),
        forall|k: int| 0 <= k < cs.len() ==> constraints_tokens(cs)[2 * k] == kw("constraint")
            && constraints_tokens(cs)[2 * k + 1] == constraint_word(#[trigger] cs[k]),
    decreases cs.len(),
{
    if cs.len() > 0 {
        lemma_constraints_tokens(cs.drop_last());
        let prev = constraints_tokens(cs.drop_last());
        assert forall|k: int| 0 <= k < cs.len() implies constraints_tokens(cs)[2 * k] == kw("constraint")
            && constraints_tokens(cs)[2 * k + 1] == constraint_word(#[trigger] cs[k]) by {
            if k < cs.len() - 1 {
                assert(cs.drop_last()[k] == cs[k]);
            }
        }
    }
}

/// Where the parts of an action declaration at `pos` begin: its `{`, its body after the action
/// type, after the prompt line, and after the output line.
pub open spec fn act_open(pos: int, a: ActionDecl) -> int {
    pos + 2 + opt_str(a.display_name).len()
}

pub open spec fn act_after_type(pos: int, a: ActionDecl) -> int {
    act_open(pos, a) + 1 + action_type_tokens(a.action_type).len()
}

pub open spec fn act_after_prompt(pos: int, a: ActionDecl) -> int {
    act_after_type(pos, a) + if a.prompt_explicit {
        2int
    } else {
        0int
    }
}

pub open spec fn act_after_output(pos: int, a: ActionDecl) -> int {
    act_after_prompt(pos, a) + output_tokens(a.output).len()
}

/// The token facts of an action declaration that the parser reads.
pub open spec fn action_facts(t: Seq<TokV>, pos: int, e: int, a: ActionDecl) -> bool {
    let p = act_open(pos, a);
    let p2 = act_after_type(pos, a);
    let q = act_after_prompt(pos, a);
    let q2 = act_after_output(pos, a);
    let n = a.constraints@.len();
    &&& e == q2 + 2 * n + 1
    &&& e <= t.len()
    &&& t[pos + 1] == ident(a.name)
    &&& (a.display_name is Some ==> t[pos + 2] == TokV::Str(a.display_name.unwrap()@))
    &&& t[p] == TokV::LBrace
    &&& tokens_at(t, p + 1, action_type_tokens(a.action_type))
    &&& (a.prompt_explicit ==> t[p2] == kw("prompt") && t[p2 + 1] == ident(a.prompt))
    &&& tokens_at(t, q, output_tokens(a.output))
    &&& (forall|k: int| 0 <= k < n ==> t[q2 + 2 * k] == kw("constraint") && t[q2 + 2 * k + 1] == constraint_word(
        #[trigger] a.constraints@[k],
    ))
    &&& t[e - 1] == TokV::RBrace
}

#[verifier::spinoff_prover]
#[verifier::rlimit(60)]
proof fn lemma_action_facts(t: Seq<TokV>, pos: int, e: int, a: ActionDecl)
    requires
        decl_at(t, pos, e, Declaration::Action(a)),
    ensures
        action_facts(t, pos, e, a),
{
    let piece = t.subrange(pos, e);
    let h = seq![kw("action"), ident(a.name)] + opt_str(a.display_name) + seq![TokV::LBrace];
    let at = action_type_tokens(a.action_type);
    let pr = if a.prompt_explicit {
        seq![kw("prompt"), ident(a.prompt)]
    } else {
        seq![]
    };
    let out = output_tokens(a.output);
    let ct = constraints_tokens(a.constraints@);
    lemma_constraints_tokens(a.constraints@);
    assert(piece == h + (at + pr + out + ct) + seq![TokV::RBrace]);
    let p = act_open(pos, a);
    assert(h.len() == p - pos + 1);
    assert(piece.len() == e - pos);
    assert(e == act_after_output(pos, a) + 2 * a.constraints@.len() + 1);
    assert(piece[1] == t[pos + 1]);
    if a.display_name is Some {
        assert(piece[2] == t[pos + 2]);
    }
    assert(piece[p - pos] == t[p]);
    assert(t.subrange(p + 1, p + 1 + at.len()) =~= piece.subrange(p + 1 - pos, p + 1 - pos + at.len()));
    assert(piece.subrange(p + 1 - pos, p + 1 - pos + at.len()) =~= at);
    let p2 = act_after_type(pos, a);
    if a.prompt_explicit {
        assert(piece[p2 - pos] == t[p2]);
        assert(piece[p2 + 1 - pos] == t[p2 + 1]);
    }
    let q = act_after_prompt(pos, a);
    assert(t.subrange(q, q + out.len()) =~= piece.subrange(q - pos, q - pos + out.len()));
    assert(piece.subrange(q - pos, q - pos + out.len()) =~= out);
    let q2 = act_after_output(pos, a);
    assert forall|k: int| 0 <= k < a.constraints@.len() implies t[q2 + 2 * k] == kw("constraint") && t[q2 + 2 * k
        + 1] == constraint_word(#[trigger] a.constraints@[k]) by {
        assert(piece[q2 + 2 * k - pos] == t[q2 + 2 * k]);
        assert(piece[q2 + 2 * k + 1 - pos] == t[q2 + 2 * k + 1]);
        assert(piece[q2 + 2 * k - pos] == ct[2 * k]);
        assert(piece[q2 + 2 * k + 1 - pos] == ct[2 * k + 1]);
    }
    assert(piece[e - 1 - pos] == t[e - 1]);
}

/// `action NAME ["Display"] { BODY }`
#[verifier::spinoff_prover]
#[verifier::rlimit(100)]
fn parse_action(ls: &Vec<Lexeme>, pos: usize) -> (r: Result<(ActionDecl, usize), String>)
    requires
        pos < ls.len(),
        lv(ls@)[pos as int] == kw("action"),
    ensures
        r matches Ok((a, e)) ==> pos < e <= ls.len() && decl_matches(
            Declaration::Action(a),
            lv(ls@).subrange(pos as int, e as int),
        ),
        forall|x: ActionDecl, e: int| #[trigger] decl_at(lv(ls@), pos as int, e, Declaration::Action(x)) ==> (r matches Ok((
            _,
            e2,
        )) && e2 == e),
{
    let ghost t = lv(ls@);
    proof {
        reveal_strlit("prompt");
        reveal_strlit("output");
        reveal_strlit("constraint");
        lemma_kw_differ("prompt", "output", 0);
        lemma_kw_differ("prompt", "constraint", 0);
        lemma_kw_differ("output", "constraint", 0);
        assert forall|x: ActionDecl, e: int| #[trigger] decl_at(t, pos as int, e, Declaration::Action(x)) implies action_facts(
            t,
            pos as int,
            e,
            x,
        ) by {
            lemma_action_facts(t, pos as int, e, x);
        }
    }
    let (name, display_name, p) = match parse_named(ls, pos) {
        Ok(x) => x,
        Err(m) => return Err(m),
    };
    proof {
        assert forall|x: ActionDecl, e: int| #[trigger] decl_at(t, pos as int, e, Declaration::Action(x)) implies p
            == act_open(pos as int, x) by {
            let seg = t.subrange(pos as int, p as int);
            assert(seg.len() == p - pos);
            assert(seg == seq![t[pos as int], ident(name)] + opt_str(display_name));
            if x.display_name is Some {
                if display_name is None {
                    assert(!no_str_at(t, pos + 2));
                }
                assert(display_name is Some);
            } else {
                assert(t[act_open(pos as int, x)] == TokV::LBrace);
                if display_name is Some {
                    assert(seg[2] == t[pos + 2]);
                }
                assert(display_name is None);
            }
        }
    }
    if !at_lbrace(ls, p) {
        return Err(parse_error("expected `{` after the action name"));
    }
    let (action_type, p2) = match parse_action_type(ls, p + 1) {
        Ok(x) => x,
        Err(m) => return Err(m),
    };
    proof {
        assert forall|x: ActionDecl, e: int| #[trigger] decl_at(t, pos as int, e, Declaration::Action(x)) implies p2
            == act_after_type(pos as int, x) by {
            assert(tokens_at(t, p + 1, action_type_tokens(x.action_type)));
        }
    }
    let mut q = p2;
    proof {
        assert forall|x: ActionDecl, e: int| #[trigger] decl_at(t, pos as int, e, Declaration::Action(x)) implies x.prompt_explicit
            == (t[p2 as int] == kw("prompt")) by {
            if !x.prompt_explicit {
                let q2w = act_after_output(pos as int, x);
                if x.output is Some {
                    assert(t.subrange(p2 as int, p2 + output_tokens(x.output).len())[0] == t[p2 as int]);
                } else if x.constraints@.len() > 0 {
                    assert(t[q2w + 2 * 0] == kw("constraint") && t[q2w + 2 * 0 + 1] == constraint_word(
                        x.constraints@[0],
                    ));
                }
            }
        }
    }
    let prompt: String;
    let prompt_explicit: bool;
    if at_kw(ls, q, "prompt") {
        match ident_at(ls, q + 1) {
            Some(pn) => {
                prompt = pn;
                prompt_explicit = true;
                q = q + 2;
            },
            None => return Err(parse_error("expected a prompt name")),
        }
    } else {
        prompt = name.clone();
        prompt_explicit = false;
    }
    assert(t.subrange(p2 as int, q as int) =~= (if prompt_explicit {
        seq![kw("prompt"), ident(prompt)]
    } else {
        seq![]
    }));
    proof {
        assert forall|x: ActionDecl, e: int| #[trigger] decl_at(t, pos as int, e, Declaration::Action(x)) implies q
            == act_after_prompt(pos as int, x) by {
            if !x.prompt_explicit {
                let q2w = act_after_output(pos as int, x);
                if x.output is Some {
                    assert(t.subrange(p2 as int, p2 + output_tokens(x.output).len())[0] == t[p2 as int]);
                } else if x.constraints@.len() > 0 {
                    assert(t[q2w + 2 * 0] == kw("constraint") && t[q2w + 2 * 0 + 1] == constraint_word(
                        x.constraints@[0],
                    ));
                }
            }
        }
    }
    proof {
        assert forall|x: ActionDecl, e: int| #[trigger] decl_at(t, pos as int, e, Declaration::Action(x)) implies {
            &&& tokens_at(t, q as int, output_tokens(x.output))
            &&& (x.output is None ==> !(q < ls.len() && t[q as int] == kw("output")))
            &&& (x.output matches Some(o) && o.access_hint is None ==> no_str_at(t, q + 2))
        } by {
            let q2w = act_after_output(pos as int, x);
            if x.constraints@.len() > 0 {
                assert(t[q2w + 2 * 0] == kw("constraint") && t[q2w + 2 * 0 + 1] == constraint_word(x.constraints@[0]));
            }
        }
    }
    let (output, q2) = match parse_output(ls, q) {
        Ok(x) => x,
        Err(m) => return Err(m),
    };
    proof {
        assert forall|x: ActionDecl, e: int| #[trigger] decl_at(t, pos as int, e, Declaration::Action(x)) implies q2
            == act_after_output(pos as int, x) by {
            assert(tokens_at(t, q as int, output_tokens(x.output)));
        }
    }
    let mut cs: Vec<Constraint> = Vec::new();
    let mut c = q2;
    assert(t.subrange(q2 as int, c as int) =~= constraints_tokens(cs@));
    while at_kw(ls, c, "constraint")
        invariant
            q2 <= c <= ls.len(),
            t == lv(ls@),
            t.subrange(q2 as int, c as int) == constraints_tokens(cs@),
            c == q2 + 2 * cs@.len(),
            kw("constraint") != TokV::RBrace,
            forall|x: ActionDecl, e: int| #[trigger] decl_at(t, pos as int, e, Declaration::Action(x)) ==> action_facts(
                t,
                pos as int,
                e,
                x,
            ) && q2 == act_after_output(pos as int, x) && cs@.len() <= x.constraints@.len() && cs@ =~= x.constraints@.take(
                cs@.len() as int,
            ),
        decreases ls.len() - c,
    {
        proof {
            assert forall|x: ActionDecl, e: int| #[trigger] decl_at(t, pos as int, e, Declaration::Action(x)) implies cs@.len()
                < x.constraints@.len() by {
                if cs@.len() == x.constraints@.len() {
                    assert(t[e - 1] == TokV::RBrace);
                }
            }
            lemma_constraints_tokens(cs@);
            assert forall|x: ActionDecl, e: int| #[trigger] decl_at(t, pos as int, e, Declaration::Action(x)) implies t[c
                + 1] == constraint_word(x.constraints@[cs@.len() as int]) by {
                let j = cs@.len() as int;
                assert(t[q2 + 2 * j] == kw("constraint") && t[q2 + 2 * j + 1] == constraint_word(x.constraints@[j]));
            }
        }
        match parse_constraint_kind(ls, c + 1) {
            Some(k) => {
                let ghost old_cs = cs@;
                proof {
                    assert forall|x: ActionDecl, e: int| #[trigger] decl_at(t, pos as int, e, Declaration::Action(x)) implies k
                        == x.constraints@[old_cs.len() as int] by {
                        let j = old_cs.len() as int;
                        assert(t[q2 + 2 * j + 1] == constraint_word(x.constraints@[j]));
                    }
                }
                cs.push(k);
                assert(cs@.drop_last() =~= old_cs);
                assert(t.subrange(q2 as int, c + 2) =~= t.subrange(q2 as int, c as int) + seq![kw("constraint"), constraint_word(k)]);
                c = c + 2;
            },
            None => return Err(parse_error("expected a constraint kind")),
        }
    }
    proof {
        assert forall|x: ActionDecl, e: int| #[trigger] decl_at(t, pos as int, e, Declaration::Action(x)) implies c + 1 == e
            && t[c as int] == TokV::RBrace by {
            if cs@.len() < x.constraints@.len() {
                let j = cs@.len() as int;
                assert(t[q2 + 2 * j] == kw("constraint") && t[q2 + 2 * j + 1] == constraint_word(x.constraints@[j]));
            }
        }
    }
    if !at_rbrace(ls, c) {
        return Err(parse_error("expected `}` at the end of the action"));
    }
    let a = ActionDecl {
        name,
        display_name,
        action_type,
        prompt,
        prompt_explicit,
        output,
        constraints: cs,
    };
    assert(t.subrange(p + 1, c as int) =~= action_body_tokens(a)) by {
        assert(t.subrange(p + 1, c as int) =~= t.subrange(p + 1, p2 as int) + t.subrange(p2 as int, q as int)
            + t.subrange(q as int, q2 as int) + t.subrange(q2 as int, c as int));
    }
    assert(t.subrange(pos as int, c + 1) =~= t.subrange(pos as int, p as int) + seq![TokV::LBrace]
        + t.subrange(p + 1, c as int) + seq![TokV::RBrace]);
    Ok((a, c + 1))
}


/// `step NAME { QUEUE -> ACTION }` or `step NAME -> ACTION`
fn parse_step(ls: &Vec<Lexeme>, pos: usize) -> (r: Result<(StepDecl, usize), String>)
    requires
        pos < ls.len(),
        lv(ls@)[pos as int] == kw("step"),
    ensures
        r matches Ok((s, e)) ==> pos < e <= ls.len() && decl_matches(
            Declaration::Step(s),
            lv(ls@).subrange(pos as int, e as int),
        ),
        forall|x: StepDecl, e: int| #[trigger] decl_at(lv(ls@), pos as int, e, Declaration::Step(x)) ==> (r matches Ok((
            _,
            e2,
        )) && e2 == e),
{
    let ghost t = lv(ls@);
    proof {
        assert forall|x: StepDecl, e: int| #[trigger] decl_at(t, pos as int, e, Declaration::Step(x)) implies {
            &&& t[pos + 1] == ident(x.name)
            &&& if x.queue_explicit {
                &&& e == pos + 7
                &&& t[pos + 2] == TokV::LBrace
                &&& t[pos + 3] == ident(x.queue)
                &&& t[pos + 4] == TokV::Arrow
                &&& t[pos + 5] == ident(x.action)
                &&& t[pos + 6] == TokV::RBrace
            } else {
                &&& e == pos + 4
                &&& t[pos + 2] == TokV::Arrow
                &&& t[pos + 3] == ident(x.action)
            }
        } by {
            let piece = t.subrange(pos as int, e);
            assert(piece.len() == e - pos);
            if x.queue_explicit {
                assert(piece.len() == 7);
            } else {
                assert(piece.len() == 4);
            }
            assert(piece[1] == t[pos + 1]);
            assert(piece[2] == t[pos + 2]);
            assert(piece[3] == t[pos + 3]);
            if x.queue_explicit {
                assert(piece[4] == t[pos + 4]);
                assert(piece[5] == t[pos + 5]);
                assert(piece[6] == t[pos + 6]);
            }
        }
    }
    let name = match ident_at(ls, pos + 1) {
        Some(n) => n,
        None => return Err(parse_error("expected a step name")),
    };
    if at_arrow(ls, pos + 2) {
        let action = match ident_at(ls, pos + 3) {
            Some(a) => a,
            None => return Err(parse_error("expected an action name after `->`")),
        };
        let mut queue = String::from_str("ready_for_");
        queue.append(action.as_str());
        let st = StepDecl { name, queue, queue_explicit: false, action };
        assert(t.subrange(pos as int, pos + 4) =~= seq![kw("step"), ident(st.name), TokV::Arrow, ident(st.action)]);
        Ok((st, pos + 4))
    } else if at_lbrace(ls, pos + 2) {
        let queue = match ident_at(ls, pos + 3) {
            Some(q) => q,
            None => return Err(parse_error("expected a queue name")),
        };
        if !at_arrow(ls, pos + 4) {
            return Err(parse_error("expected `->` in the step"));
        }
        let action = match ident_at(ls, pos + 5) {
            Some(a) => a,
            None => return Err(parse_error("expected an action name after `->`")),
        };
        if !at_rbrace(ls, pos + 6) {
            return Err(parse_error("expected `}` at the end of the step"));
        }
        let st = StepDecl { name, queue, queue_explicit: true, action };
        assert(t.subrange(pos as int, pos + 7) =~= seq![
            kw("step"),
            ident(st.name),
            TokV::LBrace,
            ident(st.queue),
            TokV::Arrow,
            ident(st.action),
            TokV::RBrace,
        ]);
        Ok((st, pos + 7))
    } else {
        Err(parse_error("expected `->` or `{` after the step name"))
    }
}

/// `phase NAME { produce STEP gate STEP }`
fn parse_phase(ls: &Vec<Lexeme>, pos: usize) -> (r: Result<(PhaseDecl, usize), String>)
    requires
        pos < ls.len(),
        lv(ls@)[pos as int] == kw("phase"),
    ensures
        r matches Ok((ph, e)) ==> pos < e <= ls.len() && decl_matches(
            Declaration::Phase(ph),
            lv(ls@).subrange(pos as int, e as int),
        ),
        forall|x: PhaseDecl, e: int| #[trigger] decl_at(lv(ls@), pos as int, e, Declaration::Phase(x)) ==> (r matches Ok((
            _,
            e2,
        )) && e2 == e),
{
    let ghost t = lv(ls@);
    proof {
        assert forall|x: PhaseDecl, e: int| #[trigger] decl_at(t, pos as int, e, Declaration::Phase(x)) implies {
            &&& e == pos + 8
            &&& t[pos + 1] == ident(x.name)
            &&& t[pos + 2] == TokV::LBrace
            &&& t[pos + 3] == kw("produce")
            &&& t[pos + 4] == ident(x.produce_step)
            &&& t[pos + 5] == kw("gate")
            &&& t[pos + 6] == ident(x.gate_step)
            &&& t[pos + 7] == TokV::RBrace
        } by {
            let piece = t.subrange(pos as int, e);
            assert(piece.len() == e - pos);
            assert(piece.len() == 8);
            assert(piece[1] == t[pos + 1]);
            assert(piece[2] == t[pos + 2]);
            assert(piece[3] == t[pos + 3]);
            assert(piece[4] == t[pos + 4]);
            assert(piece[5] == t[pos + 5]);
            assert(piece[6] == t[pos + 6]);
            assert(piece[7] == t[pos + 7]);
        }
    }
    let name = match ident_at(ls, pos + 1) {
        Some(n) => n,
        None => return Err(parse_error("expected a phase name")),
    };
    if !at_lbrace(ls, pos + 2) || !at_kw(ls, pos + 3, "produce") {
        return Err(parse_error("expected `{ produce STEP gate STEP }`"));
    }
    let produce_step = match ident_at(ls, pos + 4) {
        Some(n) => n,
        None => return Err(parse_error("expected the produce step")),
    };
    if !at_kw(ls, pos + 5, "gate") {
        return Err(parse_error("expected `gate`"));
    }
    let gate_step = match ident_at(ls, pos + 6) {
        Some(n) => n,
        None => return Err(parse_error("expected a gate step name")),
    };
    if !at_rbrace(ls, pos + 7) {
        return Err(parse_error("expected `}` at the end of the phase"));
    }
    let ph = PhaseDecl { name, produce_step, gate_step };
    assert(lv(ls@).subrange(pos as int, pos + 8) =~= seq![
        kw("phase"),
        ident(ph.name),
        TokV::LBrace,
        kw("produce"),
        ident(ph.produce_step),
        kw("gate"),
        ident(ph.gate_step),
        TokV::RBrace,
    ]);
    Ok((ph, pos + 8))
}

proof fn lemma_ident_list_extend(names: Seq<String>, t: Seq<TokV>, n: String, comma: bool)
    requires
        ident_list_matches(names, t),
    ensures
        ident_list_matches(names.push(n), t + (if comma {
            seq![ident(n), TokV::Comma]
        } else {
            seq![ident(n)]
        })),
    decreases names.len(),
{
    let tail = if comma {
        seq![ident(n), TokV::Comma]
    } else {
        seq![ident(n)]
    };
    reveal_with_fuel(ident_list_matches, 2);
    if names.len() == 0 {
        assert(t =~= Seq::<TokV>::empty());
        assert(t + tail =~= tail);
        assert(names.push(n).drop_first() =~= Seq::<String>::empty());
        assert((t + tail).drop_first() =~= tail.drop_first());
        if comma {
            assert((t + tail).subrange(2, (t + tail).len() as int) =~= Seq::<TokV>::empty());
        }
    } else {
        assert(names.push(n).drop_first() =~= names.drop_first().push(n));
        if ident_list_matches(names.drop_first(), t.drop_first()) {
            lemma_ident_list_extend(names.drop_first(), t.drop_first(), n, comma);
            assert((t + tail).drop_first() =~= t.drop_first() + tail);
        } else {
            lemma_ident_list_extend(names.drop_first(), t.subrange(2, t.len() as int), n, comma);
            assert((t + tail).subrange(2, (t + tail).len() as int) =~= t.subrange(2, t.len() as int)
                + tail);
        }
    }
}


/// A list `[...]` of the names `w` stands in `t` from `pos` to `e`.
pub open spec fn list_at(t: Seq<TokV>, pos: int, e: int, w: Seq<String>) -> bool {
    &&& 0 <= pos
    &&& pos + 2 <= e <= t.len()
    &&& t[e - 1] == TokV::RBracket
    &&& ident_list_matches(w, t.subrange(pos + 1, e - 1))
}

proof fn lemma_list_step(w: Seq<String>, seg: Seq<TokV>)
    requires
        ident_list_matches(w, seg),
        seg.len() > 0,
    ensures
        w.len() > 0,
        seg[0] == ident(w[0]),
        seg.len() >= 2 && seg[1] == TokV::Comma ==> ident_list_matches(w.drop_first(), seg.subrange(2, seg.len() as int)),
        !(seg.len() >= 2 && seg[1] == TokV::Comma) ==> ident_list_matches(w.drop_first(), seg.drop_first()),
{
    if seg.len() >= 2 && seg[1] == TokV::Comma {
        if ident_list_matches(w.drop_first(), seg.drop_first()) {
            reveal_with_fuel(ident_list_matches, 2);
            assert(seg.drop_first()[0] == TokV::Comma);
            if w.drop_first().len() > 0 {
                assert(false);
            }
        }
    }
}

proof fn lemma_list_empty(w: Seq<String>, seg: Seq<TokV>)
    requires
        ident_list_matches(w, seg),
    ensures
        seg.len() == 0 ==> w.len() == 0,
        seg.len() > 0 ==> seg[0] is Ident,
{
}

/// `[NAME ,? NAME ,? ...]`
fn parse_ident_list(ls: &Vec<Lexeme>, pos: usize) -> (r: Result<(Vec<String>, usize), String>)
    requires
        pos < ls.len(),
        lv(ls@)[pos as int] == TokV::LBracket,
    ensures
        r matches Ok((ns, e)) ==> pos + 2 <= e <= ls.len() && lv(ls@)[e - 1] == TokV::RBracket
            && ident_list_matches(ns@, lv(ls@).subrange(pos + 1, e - 1)),
        forall|w: Seq<String>, e: int| #[trigger] list_at(lv(ls@), pos as int, e, w) ==> (r matches Ok((_, e2)) && e2 == e),
{
    let ghost t = lv(ls@);
    let mut names: Vec<String> = Vec::new();
    let mut p = pos + 1;
    assert(t.subrange(pos + 1, p as int) =~= Seq::<TokV>::empty());
    proof {
        assert forall|w: Seq<String>, e: int| #[trigger] list_at(t, pos as int, e, w) implies ident_list_matches(
            w.skip(0),
            t.subrange(p as int, e - 1),
        ) by {
            assert(w.skip(0) =~= w);
        }
    }
    loop
        invariant
            pos + 1 <= p <= ls.len(),
            t == lv(ls@),
            ident_list_matches(names@, t.subrange(pos + 1, p as int)),
            forall|w: Seq<String>, e: int| #[trigger] list_at(t, pos as int, e, w) ==> p <= e - 1 && names@.len() <= w.len()
                && ident_list_matches(w.skip(names@.len() as int), t.subrange(p as int, e - 1)),
        decreases ls.len() - p,
    {
        proof {
            assert forall|w: Seq<String>, e: int| #[trigger] list_at(t, pos as int, e, w) && t[p as int] == TokV::RBracket implies p
                == e - 1 by {
                let seg = t.subrange(p as int, e - 1);
                lemma_list_empty(w.skip(names@.len() as int), seg);
                if seg.len() > 0 {
                    assert(seg[0] == t[p as int]);
                }
            }
        }
        if at_rbracket(ls, p) {
            return Ok((names, p + 1));
        }
        proof {
            assert forall|w: Seq<String>, e: int| #[trigger] list_at(t, pos as int, e, w) implies {
                &&& p < e - 1
                &&& names@.len() < w.len()
                &&& t[p as int] == ident(w[names@.len() as int])
                &&& (t[p + 1] == TokV::Comma ==> p + 2 <= e - 1 && ident_list_matches(w.skip(names@.len() + 1int), t.subrange(p + 2, e - 1)))
                &&& (t[p + 1] != TokV::Comma ==> ident_list_matches(w.skip(names@.len() + 1int), t.subrange(p + 1, e - 1)))
            } by {
                let k = names@.len() as int;
                let seg = t.subrange(p as int, e - 1);
                let ws = w.skip(k);
                lemma_list_empty(ws, seg);
                if seg.len() == 0 {
                    assert(t[p as int] == t[e - 1]);
                }
                lemma_list_step(ws, seg);
                assert(seg[0] == t[p as int]);
                assert(ws.drop_first() =~= w.skip(k + 1));
                assert(ws[0] == w[k]);
                if seg.len() >= 2 {
                    assert(seg[1] == t[p + 1]);
                    assert(seg.subrange(2, seg.len() as int) =~= t.subrange(p + 2, e - 1));
                } else {
                    assert(p + 1 == e - 1);
                    assert(t[p + 1] == TokV::RBracket);
                }
                assert(seg.drop_first() =~= t.subrange(p + 1, e - 1));
            }
        }
        let n = match ident_at(ls, p) {
            Some(n) => n,
            None => return Err(parse_error("expected a name or `]` in the list")),
        };
        let comma = at_comma(ls, p + 1);
        proof {
            lemma_ident_list_extend(names@, t.subrange(pos + 1, p as int), n, comma);
        }
        let ghost old_names = names@;
        names.push(n);
        if comma {
            assert(t.subrange(pos + 1, p + 2) =~= t.subrange(pos + 1, p as int) + seq![ident(n), TokV::Comma]);
            p = p + 2;
        } else {
            assert(t.subrange(pos + 1, p + 1) =~= t.subrange(pos + 1, p as int) + seq![ident(n)]);
            p = p + 1;
        }
    }
}


/// Override `o` is written by the tokens of `t` from `pos` to `e`.
pub open spec fn override_at(t: Seq<TokV>, pos: int, e: int, o: OverrideDecl) -> bool {
    0 <= pos < e <= t.len() && t.subrange(pos, e) == override_tokens(o)
}

/// Where an override's output line begins.
pub open spec fn ovr_output(pos: int, o: OverrideDecl) -> int {
    pos + 3 + if o.executor is Some {
        2int
    } else {
        0int
    }
}

proof fn lemma_override_facts(t: Seq<TokV>, pos: int, e: int, o: OverrideDecl)
    requires
        override_at(t, pos, e, o),
    ensures
        t[pos + 1] == ident(o.action),
        t[pos + 2] == TokV::LBrace,
        o.executor matches Some(x) ==> t[pos + 3] == kw("executor") && t[pos + 4] == executor_word(x),
        tokens_at(t, ovr_output(pos, o), output_tokens(o.output)),
        e == ovr_output(pos, o) + output_tokens(o.output).len() + 1,
        t[e - 1] == TokV::RBrace,
{
    let piece = t.subrange(pos, e);
    let ex = match o.executor {
        Some(x) => seq![kw("executor"), executor_word(x)],
        None => seq![],
    };
    let out = output_tokens(o.output);
    assert(piece == seq![kw("override"), ident(o.action), TokV::LBrace] + (ex + out) + seq![TokV::RBrace]);
    assert(piece.len() == e - pos);
    assert(piece[1] == t[pos + 1]);
    assert(piece[2] == t[pos + 2]);
    if o.executor is Some {
        assert(piece[3] == t[pos + 3]);
        assert(piece[4] == t[pos + 4]);
    }
    let q = ovr_output(pos, o);
    assert(t.subrange(q, q + out.len()) =~= piece.subrange(q - pos, q - pos + out.len()));
    assert(piece.subrange(q - pos, q - pos + out.len()) =~= out);
    assert(piece[e - 1 - pos] == t[e - 1]);
}

/// `override ACTION { [executor E] [output KIND ["hint"]] }`
fn parse_override(ls: &Vec<Lexeme>, pos: usize) -> (r: Result<(OverrideDecl, usize), String>)
    requires
        pos < ls.len(),
        lv(ls@)[pos as int] == kw("override"),
    ensures
        r matches Ok((o, e)) ==> pos < e <= ls.len() && lv(ls@).subrange(pos as int, e as int)
            == override_tokens(o),
        forall|x: OverrideDecl, e: int| #[trigger] override_at(lv(ls@), pos as int, e, x) ==> (r matches Ok((_, e2)) && e2
            == e),
{
    let ghost t = lv(ls@);
    proof {
        reveal_strlit("executor");
        reveal_strlit("output");
        lemma_kw_differ("executor", "output", 0);
        assert forall|x: OverrideDecl, e: int| #[trigger] override_at(t, pos as int, e, x) implies {
            &&& t[pos + 1] == ident(x.action)
            &&& t[pos + 2] == TokV::LBrace
            &&& (x.executor matches Some(ex) ==> t[pos + 3] == kw("executor") && t[pos + 4] == executor_word(ex))
            &&& (x.executor is None ==> t[pos + 3] != kw("executor"))
            &&& tokens_at(t, ovr_output(pos as int, x), output_tokens(x.output))
            &&& (x.output is None ==> !(ovr_output(pos as int, x) < ls.len() && t[ovr_output(pos as int, x)] == kw("output")))
            &&& (x.output matches Some(oo) && oo.access_hint is None ==> no_str_at(t, ovr_output(pos as int, x) + 2))
            &&& e == ovr_output(pos as int, x) + output_tokens(x.output).len() + 1
            &&& t[e - 1] == TokV::RBrace
        } by {
            lemma_override_facts(t, pos as int, e, x);
            if x.executor is None && x.output is Some {
                let q = ovr_output(pos as int, x);
                assert(t.subrange(q, q + output_tokens(x.output).len())[0] == t[q]);
            }
        }
    }
    let action = match ident_at(ls, pos + 1) {
        Some(a) => a,
        None => return Err(parse_error("expected an action name after `override`")),
    };
    if !at_lbrace(ls, pos + 2) {
        return Err(parse_error("expected `{` after the override's action"));
    }
    let mut p = pos + 3;
    let mut executor: Option<Executor> = None;
    if at_kw(ls, p, "executor") {
        match parse_executor(ls, p + 1) {
            Some(e) => {
                executor = Some(e);
                p = p + 2;
            },
            None => return Err(parse_error("expected an executor (agent or human)")),
        }
    }
    let (output, p2) = parse_output(ls, p)?;
    if !at_rbrace(ls, p2) {
        return Err(parse_error("expected `}` at the end of the override"));
    }
    let o = OverrideDecl { action, executor, output };
    assert(t.subrange(pos + 3, p as int) =~= (match executor {
        Some(e) => seq![kw("executor"), executor_word(e)],
        None => seq![],
    }));
    assert(t.subrange(pos as int, p2 + 1) =~= seq![kw("override"), ident(o.action), TokV::LBrace]
        + t.subrange(pos + 3, p as int) + t.subrange(p as int, p2 as int) + seq![TokV::RBrace]);
    Ok((o, p2 + 1))
}

proof fn lemma_fields_snoc(fs: Seq<ProfileField>, f: ProfileField, t1: Seq<TokV>, t2: Seq<TokV>, b: Seq<int>)
    requires
        fields_cut(fs, t1, b),
        profile_field_matches(f, t2),
    ensures
        fields_cut(fs.push(f), t1 + t2, b.push((t1 + t2).len() as int)),
{
    let both = fs.push(f);
    let t = t1 + t2;
    let b2 = b.push(t.len() as int);
    assert forall|i: int| 0 <= i < both.len() implies profile_field_matches(#[trigger] both[i], t.subrange(b2[i], b2[i + 1])) by {
        if i < fs.len() {
            assert(b[i] <= b[i + 1] && b[i + 1] <= b[fs.len() as int]);
            assert(t.subrange(b2[i], b2[i + 1]) =~= t1.subrange(b[i], b[i + 1]));
        } else {
            assert(t.subrange(b2[i], b2[i + 1]) =~= t2);
        }
    }
    assert forall|i: int, j: int| 0 <= i <= j <= both.len() implies #[trigger] b2[i] <= #[trigger] b2[j] by {
        if j <= fs.len() {
            assert(b2[i] == b[i] && b2[j] == b[j]);
        } else if i <= fs.len() {
            assert(b2[i] == b[i]);
            assert(b[i] <= b[fs.len() as int]);
        }
    }
}

proof fn lemma_decls_snoc(ds: Seq<Declaration>, d: Declaration, t1: Seq<TokV>, t2: Seq<TokV>, b: Seq<int>)
    requires
        decls_cut(ds, t1, b),
        decl_matches(d, t2),
    ensures
        decls_cut(ds.push(d), t1 + t2, b.push((t1 + t2).len() as int)),
{
    let both = ds.push(d);
    let t = t1 + t2;
    let b2 = b.push(t.len() as int);
    assert forall|i: int| 0 <= i < both.len() implies decl_matches(#[trigger] both[i], t.subrange(b2[i], b2[i + 1])) by {
        if i < ds.len() {
            assert(b[i] <= b[i + 1] && b[i + 1] <= b[ds.len() as int]);
            assert(t.subrange(b2[i], b2[i + 1]) =~= t1.subrange(b[i], b[i + 1]));
        } else {
            assert(t.subrange(b2[i], b2[i + 1]) =~= t2);
        }
    }
    assert forall|i: int, j: int| 0 <= i <= j <= both.len() implies #[trigger] b2[i] <= #[trigger] b2[j] by {
        if j <= ds.len() {
            assert(b2[i] == b[i] && b2[j] == b[j]);
        } else if i <= ds.len() {
            assert(b2[i] == b[i]);
            assert(b[i] <= b[ds.len() as int]);
        }
    }
}


/// Profile field `f` is written by the tokens of `t` from `pos` to `e`.
pub open spec fn field_at(t: Seq<TokV>, pos: int, e: int, f: ProfileField) -> bool {
    0 <= pos < e <= t.len() && profile_field_matches(f, t.subrange(pos, e))
}

/// One field of a profile body.
fn parse_profile_field(ls: &Vec<Lexeme>, pos: usize) -> (r: Result<(ProfileField, usize), String>)
    requires
        pos < ls.len(),
    ensures
        r matches Ok((f, e)) ==> pos < e <= ls.len() && profile_field_matches(
            f,
            lv(ls@).subrange(pos as int, e as int),
        ),
        forall|x: ProfileField, e: int| #[trigger] field_at(lv(ls@), pos as int, e, x) ==> (r matches Ok((_, e2)) && e2
            == e),
{
    let ghost t = lv(ls@);
    proof {
        reveal_strlit("phases");
        reveal_strlit("output");
        reveal_strlit("override");
        reveal_strlit("description");
        reveal_strlit("local");
        reveal_strlit("remote");
        reveal_strlit("remote_main");
        reveal_strlit("pr");
        lemma_kw_differ("phases", "output", 0);
        lemma_kw_differ("phases", "override", 0);
        lemma_kw_differ("phases", "description", 0);
        lemma_kw_differ("output", "override", 1);
        lemma_kw_differ("output", "description", 0);
        lemma_kw_differ("override", "description", 0);
        lemma_kw_differ("local", "remote", 0);
        lemma_kw_differ("local", "remote_main", 0);
        lemma_kw_differ("local", "pr", 0);
        lemma_kw_len_differ("remote", "remote_main");
        lemma_kw_differ("remote", "pr", 0);
        lemma_kw_differ("remote_main", "pr", 0);
        assert forall|x: ProfileField, e: int| #[trigger] field_at(t, pos as int, e, x) implies {
            &&& (x is Phases ==> t[pos as int] == kw("phases") && t[pos + 1] == TokV::LBracket && list_at(t, pos + 1, e, x->Phases_0@))
            &&& (x is Output ==> t[pos as int] == kw("output") && t[pos + 1] == output_kind_word(x->Output_0) && e == pos + 2)
            &&& (x is Override ==> t[pos as int] == kw("override") && override_at(t, pos as int, e, x->Override_0))
            &&& (x is Description ==> t[pos as int] == kw("description") && t[pos + 1] == TokV::Str(x->Description_0@) && e
                == pos + 2)
        } by {
            let piece = t.subrange(pos as int, e);
            assert(piece.len() == e - pos);
            assert(piece[0] == t[pos as int]);
            match x {
                ProfileField::Phases(names) => {
                    assert(piece[1] == t[pos + 1]);
                    assert(piece[piece.len() - 1] == t[e - 1]);
                    assert(piece.subrange(2, piece.len() - 1) =~= t.subrange(pos + 2, e - 1));
                },
                ProfileField::Output(k) => {
                    assert(piece[1] == t[pos + 1]);
                },
                ProfileField::Override(o) => {
                    assert(piece[0] == override_tokens(o)[0]);
                },
                ProfileField::Description(d) => {
                    assert(piece[1] == t[pos + 1]);
                },
            }
        }
    }
    if at_kw(ls, pos, "phases") {
        if !at_lbracket(ls, pos + 1) {
            return Err(parse_error("expected `[` after `phases`"));
        }
        let (names, e) = parse_ident_list(ls, pos + 1)?;
        assert(t.subrange(pos as int, e as int).subrange(2, e - pos - 1) =~= t.subrange(pos + 2, e - 1));
        Ok((ProfileField::Phases(names), e))
    } else if at_kw(ls, pos, "output") {
        let k = if at_kw(ls, pos + 1, "local") {
            OutputKind::Local
        } else if at_kw(ls, pos + 1, "remote") {
            OutputKind::Remote
        } else if at_kw(ls, pos + 1, "remote_main") {
            OutputKind::RemoteMain
        } else if at_kw(ls, pos + 1, "pr") {
            OutputKind::Pr
        } else {
            return Err(parse_error("expected an output kind (local, remote, remote_main or pr)"));
        };
        assert(t.subrange(pos as int, pos + 2) =~= seq![kw("output"), output_kind_word(k)]);
        Ok((ProfileField::Output(k), pos + 2))
    } else if at_kw(ls, pos, "override") {
        let (o, e) = parse_override(ls, pos)?;
        Ok((ProfileField::Override(o), e))
    } else if at_kw(ls, pos, "description") {
        match str_at(ls, pos + 1) {
            Some(d) => {
                assert(t.subrange(pos as int, pos + 2) =~= seq![kw("description"), TokV::Str(d@)]);
                Ok((ProfileField::Description(d), pos + 2))
            },
            None => Err(parse_error("expected a string after `description`")),
        }
    } else {
        Err(parse_error("expected `phases`, `output`, `override` or `description`"))
    }
}


/// Where the `{` of a profile declaration at `pos` stands.
pub open spec fn prof_open(pos: int, pd: ProfileDecl) -> int {
    pos + 2 + opt_str(pd.display_name).len()
}

/// The tokens of a profile's fields.
pub open spec fn prof_body(t: Seq<TokV>, pos: int, e: int, pd: ProfileDecl) -> Seq<TokV> {
    t.subrange(prof_open(pos, pd) + 1, e - 1)
}

/// A cut of a profile's body into its fields.
pub open spec fn prof_cut(t: Seq<TokV>, pos: int, e: int, pd: ProfileDecl) -> Seq<int> {
    choose|b: Seq<int>| fields_cut(pd.fields@, prof_body(t, pos, e, pd), b)
}

/// The token facts of a profile declaration that the parser reads.
pub open spec fn profile_facts(t: Seq<TokV>, pos: int, e: int, pd: ProfileDecl) -> bool {
    &&& t[pos + 1] == ident(pd.name)
    &&& (pd.display_name is Some ==> t[pos + 2] == TokV::Str(pd.display_name.unwrap()@))
    &&& t[prof_open(pos, pd)] == TokV::LBrace
    &&& prof_open(pos, pd) + 1 <= e - 1
    &&& e <= t.len()
    &&& t[e - 1] == TokV::RBrace
    &&& fields_cut(pd.fields@, prof_body(t, pos, e, pd), prof_cut(t, pos, e, pd))
}

proof fn lemma_profile_facts(t: Seq<TokV>, pos: int, e: int, pd: ProfileDecl)
    requires
        0 <= pos < e <= t.len(),
        profile_matches(pd, t.subrange(pos, e)),
    ensures
        profile_facts(t, pos, e, pd),
{
    let piece = t.subrange(pos, e);
    let h = seq![kw("profile"), ident(pd.name)] + opt_str(pd.display_name) + seq![TokV::LBrace];
    assert(piece.len() == e - pos);
    assert(piece.take(h.len() as int)[1] == piece[1]);
    assert(piece[1] == t[pos + 1]);
    if pd.display_name is Some {
        assert(piece.take(h.len() as int)[2] == piece[2]);
        assert(piece[2] == t[pos + 2]);
    }
    let o = prof_open(pos, pd);
    assert(piece.take(h.len() as int)[o - pos] == piece[o - pos]);
    assert(piece[o - pos] == t[o]);
    assert(piece[piece.len() - 1] == t[e - 1]);
    assert(piece.subrange(h.len() as int, piece.len() - 1) =~= prof_body(t, pos, e, pd));
}

proof fn lemma_field_starts(f: ProfileField, s: Seq<TokV>)
    requires
        profile_field_matches(f, s),
    ensures
        s.len() >= 2,
        s[0] is Ident,
{
}

/// `profile NAME ["Display"] { FIELD* }`
fn parse_profile(ls: &Vec<Lexeme>, pos: usize) -> (r: Result<(ProfileDecl, usize), String>)
    requires
        pos < ls.len(),
        lv(ls@)[pos as int] == kw("profile"),
    ensures
        r matches Ok((pd, e)) ==> pos < e <= ls.len() && profile_matches(
            pd,
            lv(ls@).subrange(pos as int, e as int),
        ),
        forall|x: ProfileDecl, e: int| 0 <= pos < e <= ls.len() && #[trigger] profile_matches(
            x,
            lv(ls@).subrange(pos as int, e),
        ) ==> (r matches Ok((_, e2)) && e2 == e),
{
    let ghost t = lv(ls@);
    proof {
        assert forall|x: ProfileDecl, e: int| 0 <= pos < e <= ls.len() && #[trigger] profile_matches(x, t.subrange(pos as int, e))
            implies profile_facts(t, pos as int, e, x) by {
            lemma_profile_facts(t, pos as int, e, x);
        }
    }
    let (name, display_name, p) = parse_named(ls, pos)?;
    proof {
        assert forall|x: ProfileDecl, e: int| 0 <= pos < e <= ls.len() && #[trigger] profile_matches(x, t.subrange(pos as int, e))
            implies p == prof_open(pos as int, x) by {
            let seg = t.subrange(pos as int, p as int);
            assert(seg.len() == p - pos);
            assert(seg == seq![t[pos as int], ident(name)] + opt_str(display_name));
            if x.display_name is Some {
                if display_name is None {
                    assert(!no_str_at(t, pos + 2));
                }
                assert(display_name is Some);
            } else {
                if display_name is Some {
                    assert(seg[2] == t[pos + 2]);
                }
                assert(display_name is None);
            }
        }
    }
    if !at_lbrace(ls, p) {
        return Err(parse_error("expected `{` after the profile name"));
    }
    let mut fields: Vec<ProfileField> = Vec::new();
    let mut q = p + 1;
    let ghost mut b: Seq<int> = seq![0int];
    assert(fields_cut(fields@, t.subrange(p + 1, q as int), b));
    while !at_rbrace(ls, q)
        invariant
            p + 1 <= q <= ls.len(),
            t == lv(ls@),
            fields_cut(fields@, t.subrange(p + 1, q as int), b),
            forall|x: ProfileDecl, e: int| 0 <= pos < e <= ls.len() && #[trigger] profile_matches(x, t.subrange(pos as int, e))
                ==> profile_facts(t, pos as int, e, x) && p == prof_open(pos as int, x) && fields@.len() <= x.fields@.len()
                && q == p + 1 + prof_cut(t, pos as int, e, x)[fields@.len() as int],
        decreases ls.len() - q,
    {
        proof {
            assert forall|x: ProfileDecl, e: int| 0 <= pos < e <= ls.len() && #[trigger] profile_matches(x, t.subrange(pos as int, e))
                implies fields@.len() < x.fields@.len() && field_at(
                t,
                q as int,
                p + 1 + prof_cut(t, pos as int, e, x)[fields@.len() + 1int],
                x.fields@[fields@.len() as int],
            ) by {
                let b2 = prof_cut(t, pos as int, e, x);
                let body = prof_body(t, pos as int, e, x);
                let k = fields@.len() as int;
                let n = x.fields@.len() as int;
                if k == n {
                    assert(q == e - 1);
                }
                assert(b2[k] <= b2[k + 1] && b2[k + 1] <= b2[n]);
                lemma_field_starts(x.fields@[k], body.subrange(b2[k], b2[k + 1]));
                assert(body.subrange(b2[k], b2[k + 1]) =~= t.subrange(p + 1 + b2[k], p + 1 + b2[k + 1]));
            }
        }
        if q >= ls.len() {
            return Err(parse_error("unterminated profile body"));
        }
        let (f, e) = parse_profile_field(ls, q)?;
        let ghost old_fields = fields@;
        let ghost prefix = t.subrange(p + 1, q as int);
        proof {
            lemma_fields_snoc(old_fields, f, prefix, t.subrange(q as int, e as int), b);
            assert(prefix + t.subrange(q as int, e as int) =~= t.subrange(p + 1, e as int));
            b = b.push(e - p - 1);
        }
        fields.push(f);
        q = e;
    }
    proof {
        assert forall|x: ProfileDecl, e: int| 0 <= pos < e <= ls.len() && #[trigger] profile_matches(x, t.subrange(pos as int, e))
            implies q + 1 == e by {
            let b2 = prof_cut(t, pos as int, e, x);
            let body = prof_body(t, pos as int, e, x);
            let k = fields@.len() as int;
            let n = x.fields@.len() as int;
            if k < n {
                assert(b2[k] <= b2[k + 1] && b2[k + 1] <= b2[n]);
                lemma_field_starts(x.fields@[k], body.subrange(b2[k], b2[k + 1]));
                assert(body.subrange(b2[k], b2[k + 1])[0] == t[q as int]);
            }
        }
    }
    let pd = ProfileDecl { name, display_name, fields };
    assert(profile_fields_match(pd.fields@, t.subrange(p + 1, q as int)));
    let ghost h = seq![kw("profile"), ident(pd.name)] + opt_str(pd.display_name) + seq![TokV::LBrace];
    assert(t.subrange(pos as int, q + 1).take(h.len() as int) =~= h);
    assert(t.subrange(pos as int, q + 1).subrange(h.len() as int, q + 1 - pos - 1) =~= t.subrange(p + 1, q as int));
    Ok((pd, q + 1))
}


proof fn lemma_named_end(t: Seq<TokV>, pos: int, e: int, e2: int, name2: String, d2: Option<String>)
    requires
        0 <= pos,
        pos + 2 <= e2 <= t.len(),
        t.subrange(pos, e2) == seq![t[pos], ident(name2)] + opt_str(d2),
        d2 is None ==> no_str_at(t, pos + 2),
        e == pos + 2 || (e == pos + 3 && pos + 2 < t.len() && t[pos + 2] is Str),
        no_str_at(t, e),
    ensures
        e2 == e,
{
    let seg = t.subrange(pos, e2);
    assert(seg.len() == e2 - pos);
    if d2 is Some {
        assert(seg[2] == t[pos + 2]);
    }
}

/// One declaration of a workflow body.
fn parse_declaration(ls: &Vec<Lexeme>, pos: usize) -> (r: Result<(Declaration, usize), String>)
    requires
        pos < ls.len(),
    ensures
        r matches Ok((d, e)) ==> pos < e <= ls.len() && decl_matches(
            d,
            lv(ls@).subrange(pos as int, e as int),
        ),
        forall|x: Declaration, e: int| #[trigger] decl_at(lv(ls@), pos as int, e, x) && no_str_at(lv(ls@), e) ==> (r matches Ok((
            _,
            e2,
        )) && e2 == e),
{
    let ghost t = lv(ls@);
    proof {
        reveal_strlit("queue");
        reveal_strlit("terminal");
        reveal_strlit("escape");
        reveal_strlit("action");
        reveal_strlit("step");
        reveal_strlit("phase");
        reveal_strlit("profile");
        reveal_strlit("include");
        lemma_kw_differ("queue", "terminal", 0);
        lemma_kw_differ("queue", "escape", 0);
        lemma_kw_differ("queue", "action", 0);
        lemma_kw_differ("queue", "step", 0);
        lemma_kw_differ("queue", "phase", 0);
        lemma_kw_differ("queue", "profile", 0);
        lemma_kw_differ("queue", "include", 0);
        lemma_kw_differ("terminal", "escape", 0);
        lemma_kw_differ("terminal", "action", 0);
        lemma_kw_differ("terminal", "step", 0);
        lemma_kw_differ("terminal", "phase", 0);
        lemma_kw_differ("terminal", "profile", 0);
        lemma_kw_differ("terminal", "include", 0);
        lemma_kw_differ("escape", "action", 0);
        lemma_kw_differ("escape", "step", 0);
        lemma_kw_differ("escape", "phase", 0);
        lemma_kw_differ("escape", "profile", 0);
        lemma_kw_differ("escape", "include", 0);
        lemma_kw_differ("action", "step", 0);
        lemma_kw_differ("action", "phase", 0);
        lemma_kw_differ("action", "profile", 0);
        lemma_kw_differ("action", "include", 0);
        lemma_kw_differ("step", "phase", 0);
        lemma_kw_differ("step", "profile", 0);
        lemma_kw_differ("step", "include", 0);
        lemma_kw_differ("phase", "profile", 1);
        lemma_kw_differ("phase", "include", 0);
        lemma_kw_differ("profile", "include", 0);
        assert forall|x: Declaration, e: int| #[trigger] decl_at(t, pos as int, e, x) implies {
            &&& t[pos as int] == (match x {
                Declaration::Queue(_) => kw("queue"),
                Declaration::Terminal(_) => kw("terminal"),
                Declaration::Escape(_) => kw("escape"),
                Declaration::Action(_) => kw("action"),
                Declaration::Step(_) => kw("step"),
                Declaration::Phase(_) => kw("phase"),
                Declaration::Profile(_) => kw("profile"),
                Declaration::Include(_) => kw("include"),
                Declaration::WildcardTransition(_) => TokV::Star,
            })
            &&& (x is Queue || x is Terminal || x is Escape) ==> t[pos + 1] is Ident && (e == pos + 2 || (e == pos + 3
                && t[pos + 2] is Str))
            &&& x matches Declaration::Include(i) ==> e == pos + 2 && t[pos + 1] == TokV::Str(i.path@)
            &&& x matches Declaration::WildcardTransition(w) ==> e == pos + 3 && t[pos + 1] == TokV::Arrow && t[pos + 2]
                == ident(w.target)
        } by {
            let piece = t.subrange(pos as int, e);
            assert(piece.len() == e - pos);
            assert(piece[0] == t[pos as int]);
            match x {
                Declaration::Profile(pd) => {
                    assert(piece.take(3)[0] == piece[0]);
                },
                Declaration::Queue(q) => {
                    assert(piece[1] == t[pos + 1]);
                    if q.display_name is Some {
                        assert(piece[2] == t[pos + 2]);
                    }
                },
                Declaration::Terminal(q) => {
                    assert(piece[1] == t[pos + 1]);
                    if q.display_name is Some {
                        assert(piece[2] == t[pos + 2]);
                    }
                },
                Declaration::Escape(q) => {
                    assert(piece[1] == t[pos + 1]);
                    if q.display_name is Some {
                        assert(piece[2] == t[pos + 2]);
                    }
                },
                Declaration::Include(i) => {
                    assert(piece[1] == t[pos + 1]);
                },
                Declaration::WildcardTransition(w) => {
                    assert(piece[1] == t[pos + 1]);
                    assert(piece[2] == t[pos + 2]);
                },
                _ => {},
            }
        }
    }
    if at_kw(ls, pos, "queue") {
        let (name, display_name, e) = parse_named(ls, pos)?;
        proof {
            assert forall|x: Declaration, e0: int| #[trigger] decl_at(t, pos as int, e0, x) && no_str_at(t, e0) implies e
                == e0 by {
                lemma_named_end(t, pos as int, e0, e as int, name, display_name);
            }
        }
        Ok((Declaration::Queue(QueueDecl { name, display_name }), e))
    } else if at_kw(ls, pos, "terminal") {
        let (name, display_name, e) = parse_named(ls, pos)?;
        proof {
            assert forall|x: Declaration, e0: int| #[trigger] decl_at(t, pos as int, e0, x) && no_str_at(t, e0) implies e
                == e0 by {
                lemma_named_end(t, pos as int, e0, e as int, name, display_name);
            }
        }
        Ok((Declaration::Terminal(TerminalDecl { name, display_name }), e))
    } else if at_kw(ls, pos, "escape") {
        let (name, display_name, e) = parse_named(ls, pos)?;
        proof {
            assert forall|x: Declaration, e0: int| #[trigger] decl_at(t, pos as int, e0, x) && no_str_at(t, e0) implies e
                == e0 by {
                lemma_named_end(t, pos as int, e0, e as int, name, display_name);
            }
        }
        Ok((Declaration::Escape(EscapeDecl { name, display_name }), e))
    } else if at_kw(ls, pos, "action") {
        proof {
            assert forall|x: Declaration, e0: int| #[trigger] decl_at(t, pos as int, e0, x) implies x is Action && decl_at(
                t,
                pos as int,
                e0,
                Declaration::Action(x->Action_0),
            ) by {}
        }
        let (a, e) = parse_action(ls, pos)?;
        Ok((Declaration::Action(a), e))
    } else if at_kw(ls, pos, "step") {
        proof {
            assert forall|x: Declaration, e0: int| #[trigger] decl_at(t, pos as int, e0, x) implies x is Step && decl_at(
                t,
                pos as int,
                e0,
                Declaration::Step(x->Step_0),
            ) by {}
        }
        let (s, e) = parse_step(ls, pos)?;
        Ok((Declaration::Step(s), e))
    } else if at_kw(ls, pos, "phase") {
        proof {
            assert forall|x: Declaration, e0: int| #[trigger] decl_at(t, pos as int, e0, x) implies x is Phase && decl_at(
                t,
                pos as int,
                e0,
                Declaration::Phase(x->Phase_0),
            ) by {}
        }
        let (ph, e) = parse_phase(ls, pos)?;
        Ok((Declaration::Phase(ph), e))
    } else if at_kw(ls, pos, "profile") {
        proof {
            assert forall|x: Declaration, e0: int| #[trigger] decl_at(t, pos as int, e0, x) implies x is Profile
                && profile_matches(x->Profile_0, t.subrange(pos as int, e0)) by {}
        }
        let (pd, e) = parse_profile(ls, pos)?;
        Ok((Declaration::Profile(pd), e))
    } else if at_kw(ls, pos, "include") {
        match str_at(ls, pos + 1) {
            Some(path) => {
                assert(t.subrange(pos as int, pos + 2) =~= seq![kw("include"), TokV::Str(path@)]);
                Ok((Declaration::Include(IncludeDecl { path }), pos + 2))
            },
            None => Err(parse_error("expected a quoted path after `include`")),
        }
    } else if at_star(ls, pos) {
        if !at_arrow(ls, pos + 1) {
            return Err(parse_error("expected `->` after `*`"));
        }
        match ident_at(ls, pos + 2) {
            Some(target) => {
                assert(t.subrange(pos as int, pos + 3) =~= seq![TokV::Star, TokV::Arrow, ident(target)]);
                Ok((Declaration::WildcardTransition(WildcardTransitionDecl { target }), pos + 3))
            },
            None => Err(parse_error("expected a target state after `* ->`")),
        }
    } else {
        Err(parse_error("expected a declaration"))
    }
}


proof fn lemma_digits_grow(s: Seq<char>, i: int)
    requires
        0 <= i <= s.len(),
        forall|j: int| 0 <= j < s.len() ==> '0' <= #[trigger] s[j] <= '9',
    ensures
        digits_value(s.take(i)) <= digits_value(s),
    decreases s.len() - i,
{
    if i < s.len() {
        lemma_digits_grow(s, i + 1);
        assert(s.take(i + 1).drop_last() =~= s.take(i));
        assert(s.take(i + 1).last() == s[i]);
    } else {
        assert(s.take(i) =~= s);
    }
}

/// The version of a `vN` token.
fn parse_version(ls: &Vec<Lexeme>, pos: usize) -> (r: Option<u32>)
    ensures
        r matches Some(v) ==> pos < ls.len() && version_matches(v, lv(ls@)[pos as int]),
        forall|x: u32| pos < ls.len() && #[trigger] version_matches(x, lv(ls@)[pos as int]) ==> r == Some(x),
{
    let s = match ident_at(ls, pos) {
        Some(s) => s,
        None => return None,
    };
    let cs = chars_of(s.as_str());
    if cs.len() < 2 || cs[0] != 'v' {
        return None;
    }
    let ghost ds = cs@.subrange(1, cs@.len() as int);
    let mut v: u32 = 0;
    let mut i: usize = 1;
    while i < cs.len()
        invariant
            1 <= i <= cs.len(),
            cs@ == s@,
            ds == cs@.subrange(1, cs@.len() as int),
            lv(ls@)[pos as int] == ident(s),
            pos < ls.len(),
            forall|j: int| 1 <= j < i ==> '0' <= #[trigger] cs@[j] <= '9',
            v as nat == digits_value(cs@.subrange(1, i as int)),
        decreases cs.len() - i,
    {
        let c = cs[i];
        if c < '0' || c > '9' {
            proof {
                assert(ds[i - 1] == c);
            }
            return None;
        }
        let d: u32 = (c as u32) - ('0' as u32);
        assert(cs@.subrange(1, i + 1).drop_last() =~= cs@.subrange(1, i as int));
        assert(cs@.subrange(1, i + 1).last() == c);
        if v > (u32::MAX - d) / 10 {
            proof {
                let nv = digits_value(cs@.subrange(1, i + 1));
                assert(nv > u32::MAX) by (nonlinear_arith)
                    requires
                        v > (u32::MAX - d) / 10,
                        nv == v * 10 + d,
                        d <= 9,
                ;
                if forall|j: int| 0 <= j < ds.len() ==> '0' <= #[trigger] ds[j] <= '9' {
                    lemma_digits_grow(ds, i as int);
                    assert(ds.take(i as int) =~= cs@.subrange(1, i + 1));
                }
            }
            return None;
        }
        assert(cs@.subrange(1, i + 1).drop_last() =~= cs@.subrange(1, i as int));
        v = v * 10 + d;
        i = i + 1;
    }
    assert(forall|j: int| 0 <= j < ds.len() ==> '0' <= #[trigger] ds[j] <= '9') by {
        assert forall|j: int| 0 <= j < ds.len() implies '0' <= #[trigger] ds[j] <= '9' by {
            assert(ds[j] == cs@[j + 1]);
        }
    }
    Some(v)
}


proof fn lemma_decl_starts(d: Declaration, piece: Seq<TokV>)
    requires
        decl_matches(d, piece),
    ensures
        piece.len() >= 2,
        piece[0] is Ident || piece[0] == TokV::Star,
{
    if let Declaration::Profile(pd) = d {
        assert(piece.take(3)[0] == piece[0]);
    }
}

/// A cut of a workflow's body into its declarations.
pub open spec fn wf_cut(t: Seq<TokV>, w: Workflow) -> Seq<int> {
    choose|b: Seq<int>| #[trigger] decls_cut(w.declarations@, t.subrange(4, t.len() - 1), b)
}

/// The head of a workflow's tokens, as the parser reads them.
pub open spec fn pos_facts(t: Seq<TokV>, w: Workflow) -> bool {
    &&& t.len() >= 5
    &&& t[0] == kw("workflow")
    &&& t[1] == ident(w.name)
    &&& version_matches(w.version, t[2])
    &&& t[3] == TokV::LBrace
    &&& t[t.len() - 1] == TokV::RBrace
    &&& decls_cut(w.declarations@, t.subrange(4, t.len() - 1), wf_cut(t, w))
}

/// Parses the tokens of a whole workflow file.
fn workflow_from_tokens(ls: &Vec<Lexeme>) -> (r: Result<Workflow, String>)
    ensures
        r matches Ok(w) ==> workflow_matches(w, lv(ls@)),
        forall|w: Workflow| #[trigger] workflow_matches(w, lv(ls@)) ==> r is Ok,
{
    let ghost t = lv(ls@);
    proof {
        assert forall|w: Workflow| #[trigger] workflow_matches(w, t) implies pos_facts(t, w) by {}
    }
    if !at_kw(ls, 0, "workflow") {
        return Err(parse_error("expected `workflow`"));
    }
    let name = match ident_at(ls, 1) {
        Some(n) => n,
        None => return Err(parse_error("expected the workflow name")),
    };
    let version = match parse_version(ls, 2) {
        Some(v) => v,
        None => return Err(parse_error("expected a version such as `v1`")),
    };
    if !at_lbrace(ls, 3) {
        return Err(parse_error("expected `{` after the workflow version"));
    }
    let mut declarations: Vec<Declaration> = Vec::new();
    let mut q: usize = 4;
    let ghost mut b: Seq<int> = seq![0int];
    assert(decls_cut(declarations@, t.subrange(4, q as int), b));
    while !at_rbrace(ls, q)
        invariant
            4 <= q <= ls.len(),
            t == lv(ls@),
            decls_cut(declarations@, t.subrange(4, q as int), b),
            forall|w: Workflow| #[trigger] workflow_matches(w, t) ==> pos_facts(t, w) && declarations@.len()
                <= w.declarations@.len() && q == 4 + wf_cut(t, w)[declarations@.len() as int],
        decreases ls.len() - q,
    {
        proof {
            assert forall|w: Workflow| #[trigger] workflow_matches(w, t) implies declarations@.len() < w.declarations@.len()
                && decl_at(t, q as int, 4 + wf_cut(t, w)[declarations@.len() + 1int], w.declarations@[declarations@.len() as int])
                && no_str_at(t, 4 + wf_cut(t, w)[declarations@.len() + 1int]) by {
                let b2 = wf_cut(t, w);
                let body = t.subrange(4, t.len() - 1);
                let k = declarations@.len() as int;
                let n = w.declarations@.len() as int;
                if k == n {
                    assert(q == t.len() - 1);
                }
                assert(b2[k] <= b2[k + 1] && b2[k + 1] <= b2[n]);
                lemma_decl_starts(w.declarations@[k], body.subrange(b2[k], b2[k + 1]));
                assert(body.subrange(b2[k], b2[k + 1]) =~= t.subrange(4 + b2[k], 4 + b2[k + 1]));
                if k + 1 < n {
                    assert(b2[k + 1] <= b2[k + 2] && b2[k + 2] <= b2[n]);
                    lemma_decl_starts(w.declarations@[k + 1], body.subrange(b2[k + 1], b2[k + 2]));
                    assert(body.subrange(b2[k + 1], b2[k + 2])[0] == t[4 + b2[k + 1]]);
                }
            }
        }
        if q >= ls.len() {
            return Err(parse_error("unterminated workflow body"));
        }
        let (d, e) = parse_declaration(ls, q)?;
        let ghost old_decls = declarations@;
        let ghost prefix = t.subrange(4, q as int);
        proof {
            lemma_decls_snoc(old_decls, d, prefix, t.subrange(q as int, e as int), b);
            assert(prefix + t.subrange(q as int, e as int) =~= t.subrange(4, e as int));
            b = b.push(e - 4);
        }
        declarations.push(d);
        q = e;
    }
    proof {
        assert forall|w: Workflow| #[trigger] workflow_matches(w, t) implies q + 1 == ls.len() by {
            let b2 = wf_cut(t, w);
            let body = t.subrange(4, t.len() - 1);
            let k = declarations@.len() as int;
            let n = w.declarations@.len() as int;
            if k < n {
                assert(b2[k] <= b2[k + 1] && b2[k + 1] <= b2[n]);
                lemma_decl_starts(w.declarations@[k], body.subrange(b2[k], b2[k + 1]));
                assert(body.subrange(b2[k], b2[k + 1])[0] == t[q as int]);
            }
        }
    }
    if q + 1 != ls.len() {
        return Err(parse_error("unexpected input after the end of the workflow"));
    }
    let w = Workflow { name, version, declarations };
    assert(decls_match(w.declarations@, t.subrange(4, q as int)));
    Ok(w)
}

/// Parses the tokens of a file that holds one profile.
fn profile_from_tokens(ls: &Vec<Lexeme>) -> (r: Result<ProfileDecl, String>)
    ensures
        r matches Ok(p) ==> profile_matches(p, lv(ls@)),
        forall|p: ProfileDecl| #[trigger] profile_matches(p, lv(ls@)) ==> r is Ok,
{
    proof {
        assert forall|p: ProfileDecl| #[trigger] profile_matches(p, lv(ls@)) implies ls@.len() > 0 && lv(ls@)[0] == kw("profile")
            && profile_matches(p, lv(ls@).subrange(0, ls@.len() as int)) by {
            let h = seq![kw("profile"), ident(p.name)] + opt_str(p.display_name) + seq![TokV::LBrace];
            assert(lv(ls@).take(h.len() as int)[0] == lv(ls@)[0]);
            assert(lv(ls@).subrange(0, ls@.len() as int) =~= lv(ls@));
        }
    }
    if !at_kw(ls, 0, "profile") {
        return Err(parse_error("expected `profile`"));
    }
    let (p, e) = parse_profile(ls, 0)?;
    if e != ls.len() {
        return Err(parse_error("unexpected input after the end of the profile"));
    }
    assert(lv(ls@).subrange(0, e as int) =~= lv(ls@));
    Ok(p)
}

/// `input` read as tokens: the lexing of the whole text.
pub open spec fn read_as(input: Seq<char>, t: Seq<TokV>) -> bool {
    exists|ls: Seq<Lexeme>| #[trigger] lexes(input, ls) && lv(ls) == t
}

/// The tokens of a text are those of any lexing of it.
proof fn lemma_read_as_lexing(input: Seq<char>, ls: Seq<Lexeme>, t: Seq<TokV>)
    requires
        lexes(input, ls),
        read_as(input, t),
    ensures
        t == lv(ls),
{
    let ls2 = choose|ls2: Seq<Lexeme>| #[trigger] lexes(input, ls2) && lv(ls2) == t;
    lemma_lexing_unique(input, ls, ls2);
    assert(lv(ls) =~= lv(ls2));
}

/// A text that reads as tokens has no point at which the lexer fails.
proof fn lemma_read_as_no_error(input: Seq<char>, t: Seq<TokV>, p: int)
    requires
        read_as(input, t),
    ensures
        !lex_error_at(input, p),
{
    let ls2 = choose|ls2: Seq<Lexeme>| #[trigger] lexes(input, ls2) && lv(ls2) == t;
    lemma_lexing_has_no_error(input, ls2, p);
}

/// The text of a workflow file is in the language: it reads as tokens that write a workflow.
pub open spec fn workflow_text(input: Seq<char>) -> bool {
    exists|t: Seq<TokV>, w: Workflow| read_as(input, t) && #[trigger] workflow_matches(w, t)
}

/// The text of a profile file is in the language: it reads as tokens that write a profile.
pub open spec fn profile_text(input: Seq<char>) -> bool {
    exists|t: Seq<TokV>, p: ProfileDecl| read_as(input, t) && #[trigger] profile_matches(p, t)
}

/// Parse the tokens of a workflow file. It succeeds exactly when the tokens are those
/// of a workflow, and then they are the returned workflow's; otherwise the error is a
/// syntax error.
pub fn parse_workflow_tokens(ls: &Vec<Lexeme>) -> (r: Result<Workflow, LoomError>)
    ensures
        r matches Ok(w) ==> workflow_matches(w, lv(ls@)),
        forall|w: Workflow| #[trigger] workflow_matches(w, lv(ls@)) ==> r is Ok,
        r matches Err(e) ==> e is Parse,
{
    match workflow_from_tokens(ls) {
        Ok(w) => Ok(w),
        Err(m) => Err(syntax_error(m)),
    }
}

/// Parse the tokens of a profile file. It succeeds exactly when the tokens are those of
/// a profile, and then they are the returned profile's; otherwise the error is a syntax
/// error.
pub fn parse_profile_tokens(ls: &Vec<Lexeme>) -> (r: Result<ProfileDecl, LoomError>)
    ensures
        r matches Ok(p) ==> profile_matches(p, lv(ls@)),
        forall|p: ProfileDecl| #[trigger] profile_matches(p, lv(ls@)) ==> r is Ok,
        r matches Err(e) ==> e is Parse,
{
    match profile_from_tokens(ls) {
        Ok(p) => Ok(p),
        Err(m) => Err(syntax_error(m)),
    }
}

/// Parse a workflow `.loom` file.
///
/// It succeeds exactly when the text is in the language, and then the text reads as the
/// tokens of the returned workflow (see `workflow_matches`).
pub fn parse_workflow(input: &str) -> (r: Result<Workflow, LoomError>)
    ensures
        r is Ok <==> workflow_text(input@),
        r matches Err(e) ==> e is Parse,
        r matches Ok(w) ==> exists|t: Seq<TokV>| read_as(input@, t) && #[trigger] workflow_matches(w, t),
{
    let cs = chars_of(input);
    match tokenize(&cs) {
        Ok(ls) => {
            let r = parse_workflow_tokens(&ls);
            match r {
                Ok(w) => {
                    assert(lexes(input@, ls@));
                    assert(read_as(input@, lv(ls@)));
                    assert(workflow_matches(w, lv(ls@)));
                    Ok(w)
                },
                Err(e) => {
                    proof {
                        if workflow_text(input@) {
                            let (t, w) = choose|t: Seq<TokV>, w: Workflow| read_as(input@, t) && #[trigger] workflow_matches(w, t);
                            lemma_read_as_lexing(input@, ls@, t);
                        }
                    }
                    Err(e)
                },
            }
        },
        Err(p) => {
            proof {
                if workflow_text(input@) {
                    let (t, w) = choose|t: Seq<TokV>, w: Workflow| read_as(input@, t) && #[trigger] workflow_matches(w, t);
                    lemma_read_as_no_error(input@, t, p as int);
                }
            }
            Err(syntax_error(parse_error("invalid character")))
        },
    }
}

/// Parse a profile `.loom` file (one `profile` declaration).
///
/// It succeeds exactly when the text is in the language, and then the text reads as the
/// tokens of the returned profile.
pub fn parse_profile_file(input: &str) -> (r: Result<ProfileDecl, LoomError>)
    ensures
        r is Ok <==> profile_text(input@),
        r matches Err(e) ==> e is Parse,
        r matches Ok(p) ==> exists|t: Seq<TokV>| read_as(input@, t) && #[trigger] profile_matches(p, t),
{
    let cs = chars_of(input);
    match tokenize(&cs) {
        Ok(ls) => {
            let r = parse_profile_tokens(&ls);
            match r {
                Ok(p) => {
                    assert(lexes(input@, ls@));
                    assert(read_as(input@, lv(ls@)));
                    assert(profile_matches(p, lv(ls@)));
                    Ok(p)
                },
                Err(e) => {
                    proof {
                        if profile_text(input@) {
                            let (t, pd) = choose|t: Seq<TokV>, pd: ProfileDecl| read_as(input@, t) && #[trigger] profile_matches(pd, t);
                            lemma_read_as_lexing(input@, ls@, t);
                        }
                    }
                    Err(e)
                },
            }
        },
        Err(p) => {
            proof {
                if profile_text(input@) {
                    let (t, pd) = choose|t: Seq<TokV>, pd: ProfileDecl| read_as(input@, t) && #[trigger] profile_matches(pd, t);
                    lemma_read_as_no_error(input@, t, p as int);
                }
            }
            Err(syntax_error(parse_error("invalid character")))
        },
    }
}
} // verus!
