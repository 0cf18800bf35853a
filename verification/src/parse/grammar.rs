//! The grammar of `.loom` files, stated over token sequences: what token sequence each
//! syntax tree is written as.
use vstd::prelude::*;
use crate::parse::ast::{ActionDecl, ActionOutput, ActionType, Constraint, Declaration, EscapeDecl, Executor, GateKind, IncludeDecl, OutputKind, OverrideDecl, PhaseDecl, ProfileDecl, ProfileField, QueueDecl, StepDecl, TerminalDecl, WildcardTransitionDecl, Workflow};
use crate::parse::lexer::Token;

verus! {

/// A token as a mathematical value.
pub enum TokV {
    Ident(Seq<char>),
    Int(Seq<char>),
    Str(Seq<char>),
    LBrace,
    RBrace,
    LBracket,
    RBracket,
    Comma,
    Arrow,
    Star,
}

pub open spec fn tok_view(t: Token) -> TokV {
    match t {
        Token::Ident(s) => TokV::Ident(s@),
        Token::Int(s) => TokV::Int(s@),
        Token::Str(s) => TokV::Str(s@),
        Token::LBrace => TokV::LBrace,
        Token::RBrace => TokV::RBrace,
        Token::LBracket => TokV::LBracket,
        Token::RBracket => TokV::RBracket,
        Token::Comma => TokV::Comma,
        Token::Arrow => TokV::Arrow,
        Token::Star => TokV::Star,
    }
}

pub open spec fn kw(s: &str) -> TokV {
    TokV::Ident(s@)
}

pub open spec fn ident(s: String) -> TokV {
    TokV::Ident(s@)
}

pub open spec fn opt_str(d: Option<String>) -> Seq<TokV> {
    match d {
        Some(s) => seq![TokV::Str(s@)],
        None => seq![],
    }
}

pub open spec fn executor_word(e: Executor) -> TokV {
    match e {
        Executor::Agent => kw("agent"),
        Executor::Human => kw("human"),
    }
}

pub open spec fn gate_word(g: GateKind) -> TokV {
    match g {
        GateKind::Approve => kw("approve"),
        GateKind::Auth => kw("auth"),
        GateKind::Review => kw("review"),
    }
}

pub open spec fn constraint_word(c: Constraint) -> TokV {
    match c {
        Constraint::ReadOnly => kw("read_only"),
        Constraint::NoGitWrite => kw("no_git_write"),
        Constraint::MetadataOnly => kw("metadata_only"),
    }
}

pub open spec fn output_kind_word(o: OutputKind) -> TokV {
    match o {
        OutputKind::Local => kw("local"),
        OutputKind::Remote => kw("remote"),
        OutputKind::RemoteMain => kw("remote_main"),
        OutputKind::Pr => kw("pr"),
    }
}

pub open spec fn action_type_tokens(t: ActionType) -> Seq<TokV> {
    match t {
        ActionType::Produce(e) => seq![kw("produce"), executor_word(e)],
        ActionType::Gate(g, e) => seq![kw("gate"), gate_word(g), executor_word(e)],
    }
}

/// `output KIND ["hint"]` (nothing when there is no output)
pub open spec fn output_tokens(o: Option<ActionOutput>) -> Seq<TokV> {
    match o {
        Some(out) => seq![kw("output"), ident(out.artifact_type)] + opt_str(out.access_hint),
        None => seq![],
    }
}

pub open spec fn constraints_tokens(cs: Seq<Constraint>) -> Seq<TokV>
    decreases cs.len(),
{
    if cs.len() == 0 {
        seq![]
    } else {
        constraints_tokens(cs.drop_last()) + seq![kw("constraint"), constraint_word(cs.last())]
    }
}

pub open spec fn action_body_tokens(a: ActionDecl) -> Seq<TokV> {
    action_type_tokens(a.action_type) + (if a.prompt_explicit {
        seq![kw("prompt"), ident(a.prompt)]
    } else {
        seq![]
    }) + output_tokens(a.output) + constraints_tokens(a.constraints@)
}

/// What the parser guarantees of an action beyond its tokens: an action without a
/// `prompt` line uses the prompt named after it.
pub open spec fn action_wf(a: ActionDecl) -> bool {
    !a.prompt_explicit ==> a.prompt@ == a.name@
}

/// A shorthand step's queue is `ready_for_` followed by the action's name.
pub open spec fn step_wf(s: StepDecl) -> bool {
    !s.queue_explicit ==> s.queue@ == "ready_for_"@ + s.action@
}

/// An identifier list `[a, b c,]`: commas after items are optional.
pub open spec fn ident_list_matches(names: Seq<String>, t: Seq<TokV>) -> bool
    decreases names.len(),
{
    if names.len() == 0 {
        t.len() == 0
    } else {
        &&& t.len() >= 1
        &&& t[0] == ident(names[0])
        &&& (ident_list_matches(names.drop_first(), t.drop_first()) || (t.len() >= 2 && t[1]
            == TokV::Comma && ident_list_matches(names.drop_first(), t.subrange(2, t.len() as int))))
    }
}

pub open spec fn override_field_tokens(executor: Option<Executor>, output: Option<ActionOutput>) -> Seq<TokV> {
    (match executor {
        Some(e) => seq![kw("executor"), executor_word(e)],
        None => seq![],
    }) + output_tokens(output)
}

/// An override body holds each of its settings at most once, the executor first.
pub open spec fn override_tokens(o: OverrideDecl) -> Seq<TokV> {
    seq![kw("override"), ident(o.action), TokV::LBrace] + override_field_tokens(o.executor, o.output)
        + seq![TokV::RBrace]
}

pub open spec fn profile_field_matches(f: ProfileField, t: Seq<TokV>) -> bool {
    match f {
        ProfileField::Phases(names) => {
            &&& t.len() >= 3
            &&& t[0] == kw("phases")
            &&& t[1] == TokV::LBracket
            &&& t[t.len() - 1] == TokV::RBracket
            &&& ident_list_matches(names@, t.subrange(2, t.len() - 1))
        },
        ProfileField::Output(k) => t == seq![kw("output"), output_kind_word(k)],
        ProfileField::Override(o) => t == override_tokens(o),
        ProfileField::Description(d) => t == seq![kw("description"), TokV::Str(d@)],
    }
}

/// `b` cuts `t` into consecutive pieces, piece `i` being `t[b[i], b[i + 1])`.
pub open spec fn cuts(t: Seq<TokV>, b: Seq<int>, n: int) -> bool {
    &&& b.len() == n + 1
    &&& b[0] == 0
    &&& b[n] == t.len()
    &&& forall|i: int, j: int| 0 <= i <= j <= n ==> #[trigger] b[i] <= #[trigger] b[j]
}

pub open spec fn fields_cut(fs: Seq<ProfileField>, t: Seq<TokV>, b: Seq<int>) -> bool {
    &&& cuts(t, b, fs.len() as int)
    &&& forall|i: int|
        0 <= i < fs.len() ==> profile_field_matches(#[trigger] fs[i], t.subrange(b[i], b[i + 1]))
}

/// The fields, one after the other.
pub open spec fn profile_fields_match(fs: Seq<ProfileField>, t: Seq<TokV>) -> bool {
    exists|b: Seq<int>| #[trigger] fields_cut(fs, t, b)
}

/// `profile NAME ["Display"] { FIELD* }`
pub open spec fn profile_matches(p: ProfileDecl, t: Seq<TokV>) -> bool {
    let h = seq![kw("profile"), ident(p.name)] + opt_str(p.display_name) + seq![TokV::LBrace];
    &&& t.len() >= h.len() + 1
    &&& t.take(h.len() as int) == h
    &&& t[t.len() - 1] == TokV::RBrace
    &&& profile_fields_match(p.fields@, t.subrange(h.len() as int, t.len() - 1))
}

pub open spec fn decl_matches(d: Declaration, t: Seq<TokV>) -> bool {
    match d {
        Declaration::Queue(q) => t == seq![kw("queue"), ident(q.name)] + opt_str(q.display_name),
        Declaration::Action(a) => {
            &&& action_wf(a)
            &&& t == seq![kw("action"), ident(a.name)] + opt_str(a.display_name) + seq![TokV::LBrace]
                + action_body_tokens(a) + seq![TokV::RBrace]
        },
        Declaration::Terminal(x) => t == seq![kw("terminal"), ident(x.name)] + opt_str(
            x.display_name,
        ),
        Declaration::Escape(x) => t == seq![kw("escape"), ident(x.name)] + opt_str(x.display_name),
        Declaration::Step(s) => {
            &&& step_wf(s)
            &&& if s.queue_explicit {
                t == seq![
                    kw("step"),
                    ident(s.name),
                    TokV::LBrace,
                    ident(s.queue),
                    TokV::Arrow,
                    ident(s.action),
                    TokV::RBrace,
                ]
            } else {
                t == seq![kw("step"), ident(s.name), TokV::Arrow, ident(s.action)]
            }
        },
        Declaration::Phase(p) => t == seq![
            kw("phase"),
            ident(p.name),
            TokV::LBrace,
            kw("produce"),
            ident(p.produce_step),
            kw("gate"),
            ident(p.gate_step),
            TokV::RBrace,
        ],
        Declaration::Profile(p) => profile_matches(p, t),
        Declaration::Include(i) => t == seq![kw("include"), TokV::Str(i.path@)],
        Declaration::WildcardTransition(w) => t == seq![TokV::Star, TokV::Arrow, ident(w.target)],
    }
}

pub open spec fn decls_cut(ds: Seq<Declaration>, t: Seq<TokV>, b: Seq<int>) -> bool {
    &&& cuts(t, b, ds.len() as int)
    &&& forall|i: int|
        0 <= i < ds.len() ==> decl_matches(#[trigger] ds[i], t.subrange(b[i], b[i + 1]))
}

/// The declarations, one after the other.
pub open spec fn decls_match(ds: Seq<Declaration>, t: Seq<TokV>) -> bool {
    exists|b: Seq<int>| #[trigger] decls_cut(ds, t, b)
}

/// The decimal digits of `n`, without leading zeros.
pub open spec fn decimal(n: nat) -> Seq<char>
    decreases n,
{
    if n < 10 {
        seq![digit_char(n)]
    } else {
        decimal(n / 10) + seq![digit_char(n % 10)]
    }
}

pub open spec fn digit_char(d: nat) -> char {
    if d == 0 {
        '0'
    } else if d == 1 {
        '1'
    } else if d == 2 {
        '2'
    } else if d == 3 {
        '3'
    } else if d == 4 {
        '4'
    } else if d == 5 {
        '5'
    } else if d == 6 {
        '6'
    } else if d == 7 {
        '7'
    } else if d == 8 {
        '8'
    } else {
        '9'
    }
}

/// The value of a string of decimal digits.
pub open spec fn digits_value(s: Seq<char>) -> nat
    decreases s.len(),
{
    if s.len() == 0 {
        0
    } else {
        (digits_value(s.drop_last()) * 10 + (s.last() as nat - '0' as nat)) as nat
    }
}

/// `vN`: the letter `v` followed by the version's digits (leading zeros allowed).
pub open spec fn version_matches(version: u32, t: TokV) -> bool {
    match t {
        TokV::Ident(s) => {
            let ds = s.subrange(1, s.len() as int);
            &&& s.len() >= 2
            &&& s[0] == 'v'
            &&& forall|i: int| 0 <= i < ds.len() ==> '0' <= #[trigger] ds[i] <= '9'
            &&& digits_value(ds) == version
        },
        _ => false,
    }
}

/// `workflow NAME vN { DECL* }`
pub open spec fn workflow_matches(w: Workflow, t: Seq<TokV>) -> bool {
    &&& t.len() >= 5
    &&& t[0] == kw("workflow")
    &&& t[1] == ident(w.name)
    &&& version_matches(w.version, t[2])
    &&& t[3] == TokV::LBrace
    &&& t[t.len() - 1] == TokV::RBrace
    &&& decls_match(w.declarations@, t.subrange(4, t.len() - 1))
}

} // verus!
