//! Prompt files: YAML frontmatter with outcome routing and typed parameters,
//! followed by a markdown body.
use vstd::prelude::*;
use indexmap::IndexMap;
use regex::Regex;
use crate::error::LoomError;
use crate::ir::{opt_view, strings_view};
use crate::maps::{
    lemma_insert_fresh, map_insert, outcome_entries, outcomes_at, outcomes_insert, outcomes_len, outcomes_new,
    param_entries, params_at, params_insert, params_len, params_new, view_entries,
};
use crate::text::{
    chars_of, is_white_space, is_whitespace_char, lemma_seq_lt_irreflexive, lemma_seq_lt_total, lemma_seq_lt_transitive, seq_lt,
    str_lt,
};
use crate::parse::lexer::string_from;

verus! {

/// A parsed prompt file.
#[derive(Debug)]
pub struct PromptFile {
    pub accept: Vec<String>,
    pub success: IndexMap<String, String>,
    pub failure: IndexMap<String, String>,
    pub params: IndexMap<String, ParamDef>,
    pub body: String,
    /// Parameters referenced in the body via `{{ name }}`, sorted, each once.
    pub body_params: Vec<String>,
}

/// A typed prompt parameter.
#[derive(Debug)]
pub struct ParamDef {
    pub param_type: ParamType,
    pub values: Vec<String>,
    pub required: bool,
    pub default: Option<String>,
    pub description: Option<String>,
}

#[derive(Debug, Clone, Copy, PartialEq, Eq, Structural)]
pub enum ParamType {
    String,
    Int,
    Bool,
    Enum,
}


/// `s` with leading and trailing whitespace removed, as the range `[a, b)`.
pub open spec fn trim_range(s: Seq<char>, a: int, b: int) -> bool {
    &&& 0 <= a <= b <= s.len()
    &&& forall|i: int| 0 <= i < a ==> is_white_space(#[trigger] s[i])
    &&& forall|i: int| b <= i < s.len() ==> is_white_space(#[trigger] s[i])
    &&& a < b ==> !is_white_space(s[a]) && !is_white_space(s[b - 1])
}

/// The bounds of `cs[from, to)` without its leading and trailing whitespace.
fn trim_bounds(cs: &Vec<char>, from: usize, to: usize) -> (r: (usize, usize))
    requires
        from <= to <= cs.len(),
    ensures
        trim_range(cs@.subrange(from as int, to as int), r.0 - from, r.1 - from),
        from <= r.0 <= r.1 <= to,
{
    let mut a = from;
    while a < to && is_whitespace_char(cs[a])
        invariant
            from <= a <= to <= cs.len(),
            forall|i: int| from <= i < a ==> is_white_space(#[trigger] cs@[i]),
        decreases to - a,
    {
        a = a + 1;
    }
    let mut b = to;
    while b > a && is_whitespace_char(cs[b - 1])
        invariant
            from <= a <= b <= to <= cs.len(),
            forall|i: int| b <= i < to ==> is_white_space(#[trigger] cs@[i]),
        decreases b - a,
    {
        b = b - 1;
    }
    let ghost s = cs@.subrange(from as int, to as int);
    assert forall|i: int| 0 <= i < a - from implies is_white_space(#[trigger] s[i]) by {
        assert(s[i] == cs@[from + i]);
    }
    assert forall|i: int| b - from <= i < s.len() implies is_white_space(#[trigger] s[i]) by {
        assert(s[i] == cs@[from + i]);
    }
    if a < b {
        assert(s[a - from] == cs@[a as int]);
        assert(s[b - from - 1] == cs@[b - 1]);
    }
    (a, b)
}

/// `pat` occurs in `s` at `i`.
pub open spec fn occurs_at(s: Seq<char>, pat: Seq<char>, i: int) -> bool {
    0 <= i && i + pat.len() <= s.len() && s.subrange(i, i + pat.len()) == pat
}

/// The frontmatter and body of a prompt file, given where the trimmed text starts (`a`) and
/// ends (`b`) and where the closing `---` stands (`e`).
pub open spec fn split_at(c: Seq<char>, a: int, b: int, e: int, front: Seq<char>, body: Seq<char>) -> bool {
    &&& trim_range(c, a, b)
    &&& occurs_at(c, "---"@, a)
    &&& a + 3 <= e
    &&& occurs_at(c, "---"@, e)
    &&& e + 3 <= b
    &&& forall|j: int| a + 3 <= j < e ==> !#[trigger] occurs_at(c, "---"@, j)
    &&& front == c.subrange(a + 3, e)
    &&& exists|x: int, y: int|
        #[trigger] trim_range(c.subrange(e + 3, b), x, y) && body == c.subrange(e + 3, b).subrange(x, y)
}

/// The frontmatter and body of a prompt file: after trimming, the text must start with
/// `---`; the frontmatter runs to the next `---`, and the body is what follows it, trimmed.
pub open spec fn frontmatter_split(c: Seq<char>, front: Seq<char>, body: Seq<char>) -> bool {
    exists|a: int, b: int, e: int| #[trigger] split_at(c, a, b, e, front, body)
}

fn dashes_at(cs: &Vec<char>, i: usize, end: usize) -> (b: bool)
    requires
        end <= cs.len(),
    ensures
        b == (i + 3 <= end && occurs_at(cs@, "---"@, i as int)),
{
    proof {
        reveal_strlit("---");
    }
    if i <= end && end - i >= 3 && cs[i] == '-' && cs[i + 1] == '-' && cs[i + 2] == '-' {
        assert(cs@.subrange(i as int, i + 3) =~= "---"@);
        true
    } else {
        proof {
            if i + 3 <= end && occurs_at(cs@, "---"@, i as int) {
                assert(cs@.subrange(i as int, i + 3)[0] == cs@[i as int]);
                assert(cs@.subrange(i as int, i + 3)[1] == cs@[i + 1]);
                assert(cs@.subrange(i as int, i + 3)[2] == cs@[i + 2]);
            }
        }
        false
    }
}

/// Splits a prompt file into its YAML frontmatter and its body.
pub fn split_frontmatter(content: &str) -> (r: Result<(String, String), LoomError>)
    ensures
        r matches Ok((f, b)) ==> frontmatter_split(content@, f@, b@),
        r is Err ==> r->Err_0 is Parse && !(exists|f: Seq<char>, b: Seq<char>| frontmatter_split(content@, f, b)),
{
    let cs = chars_of(content);
    let (a, b) = trim_bounds(&cs, 0, cs.len());
    assert(cs@.subrange(0, cs@.len() as int) =~= cs@);
    if !dashes_at(&cs, a, b) {
        proof {
            assert forall|f: Seq<char>, bd: Seq<char>| !frontmatter_split(content@, f, bd) by {
                if frontmatter_split(content@, f, bd) {
                    let (a2, b2, e2) = choose|a2: int, b2: int, e2: int| split_at(cs@, a2, b2, e2, f, bd);
                    lemma_trim_unique(cs@, a as int, b as int, a2, b2);
                }
            }
        }
        return Err(LoomError::Parse {
            message: String::from_str("prompt file must start with YAML frontmatter (---)"),
        });
    }
    let mut e = a + 3;
    while e < b && !dashes_at(&cs, e, b)
        invariant
            a + 3 <= e <= b <= cs@.len(),
            forall|j: int| a + 3 <= j < e ==> !#[trigger] occurs_at(cs@, "---"@, j) || j + 3 > b,
        decreases b - e,
    {
        e = e + 1;
    }
    if b - e < 3 || !dashes_at(&cs, e, b) {
        proof {
            assert forall|f: Seq<char>, bd: Seq<char>| !frontmatter_split(content@, f, bd) by {
                if frontmatter_split(content@, f, bd) {
                    let (a2, b2, e2) = choose|a2: int, b2: int, e2: int| split_at(cs@, a2, b2, e2, f, bd);
                    lemma_trim_unique(cs@, a as int, b as int, a2, b2);
                    assert(!occurs_at(cs@, "---"@, e2) || e2 + 3 > b);
                }
            }
        }
        return Err(LoomError::Parse { message: String::from_str("unterminated YAML frontmatter") });
    }
    let front = string_from(&cs, a + 3, e);
    let (x, y) = trim_bounds(&cs, e + 3, b);
    let body = string_from(&cs, x, y);
    proof {
        assert forall|j: int| a + 3 <= j < e implies !#[trigger] occurs_at(cs@, "---"@, j) by {
            if occurs_at(cs@, "---"@, j) {
                assert(j + 3 > b);
                assert(cs@.subrange(j, j + 3)[0] == cs@[j]);
                assert(cs@.subrange(e as int, e + 3)[0] == cs@[e as int]);
            }
        }
        assert(body@ =~= cs@.subrange(e + 3, b as int).subrange(x - (e + 3), y - (e + 3)));
        assert(trim_range(cs@.subrange(e + 3, b as int), x - (e + 3), y - (e + 3)));
        assert(trim_range(cs@, a as int, b as int));
        assert(split_at(cs@, a as int, b as int, e as int, front@, body@));
    }
    Ok((front, body))
}

proof fn lemma_trim_unique(s: Seq<char>, a: int, b: int, a2: int, b2: int)
    requires
        trim_range(s, a, b),
        trim_range(s, a2, b2),
    ensures
        a < b ==> a == a2 && b == b2,
        a2 < b2 ==> a == a2 && b == b2,
{
    if a < b {
        if a2 < a {
            assert(is_white_space(s[a2]));
        }
        if a < a2 {
            assert(is_white_space(s[a]));
        }
        if b2 > b {
            assert(is_white_space(s[b2 - 1]));
        }
        if b2 < b {
            assert(is_white_space(s[b - 1]));
        }
    }
    if a2 < b2 {
        if a2 < a {
            assert(is_white_space(s[a2]));
        }
        if a < a2 {
            assert(is_white_space(s[a]));
        }
        if b2 > b {
            assert(is_white_space(s[b2 - 1]));
        }
        if b2 < b {
            assert(is_white_space(s[b - 1]));
        }
    }
}

/// What `regex::Regex::new(pattern)` and then `captures_iter(text)` give: `None` where the
/// pattern does not compile, else, for each successive non-overlapping match, its group one
/// (`None` for a match in which that group took no part).
pub uninterp spec fn regex_group_one(pattern: Seq<char>, text: Seq<char>) -> Option<Seq<Option<Seq<char>>>>;

/// A list of optional strings as values.
pub open spec fn captures_view(v: Seq<Option<String>>) -> Seq<Option<Seq<char>>> {
    v.map_values(|o: Option<String>| opt_view(o))
}

/// Compiles `pattern` with `regex::Regex::new` and, where it compiles, collects group one of
/// each match of `Regex::captures_iter` over `text`. The contract claims only that the result
/// is the crate's answer for these two arguments.
#[verifier::external_body]
fn regex_group_one_captures(pattern: &str, text: &str) -> (r: Option<Vec<Option<String>>>)
    ensures
        r is None ==> regex_group_one(pattern@, text@) is None,
        r matches Some(v) ==> regex_group_one(pattern@, text@) == Some(captures_view(v@)),
{
    match Regex::new(pattern) {
        Ok(re) => Some(re.captures_iter(text).map(|c| c.get(1).map(|m| m.as_str().to_string())).collect()),
        Err(_) => None,
    }
}

/// Every element comes before the next one, so none occurs twice.
pub open spec fn strictly_sorted(s: Seq<Seq<char>>) -> bool {
    forall|i: int, j: int| 0 <= i < j < s.len() ==> seq_lt(#[trigger] s[i], #[trigger] s[j])
}

/// `s` is one of the captured values.
pub open spec fn captured(caps: Seq<Option<Seq<char>>>, s: Seq<char>) -> bool {
    exists|i: int| 0 <= i < caps.len() && caps[i] == Some(s)
}

fn insert_sorted(v: &mut Vec<String>, x: String)
    requires
        strictly_sorted(strings_view(old(v)@)),
    ensures
        strictly_sorted(strings_view(final(v)@)),
        forall|s: Seq<char>|
            strings_view(final(v)@).contains(s) <==> (strings_view(old(v)@).contains(s) || s == x@),
{
    let ghost old_v = strings_view(v@);
    let mut p: usize = 0;
    while p < v.len() && str_lt(v[p].as_str(), x.as_str())
        invariant
            p <= v.len(),
            old_v == strings_view(v@),
            strictly_sorted(old_v),
            forall|k: int| 0 <= k < p ==> seq_lt(#[trigger] old_v[k], x@),
        decreases v.len() - p,
    {
        p = p + 1;
    }
    if p < v.len() && v[p] == x {
        proof {
            assert forall|s: Seq<char>| old_v.contains(s) || s == x@ implies old_v.contains(s) by {
                if s == x@ {
                    assert(old_v[p as int] == s);
                }
            }
        }
        return;
    }
    let ghost xs = x@;
    v.insert(p, x);
    proof {
        let nv = strings_view(v@);
        assert(nv =~= old_v.insert(p as int, xs));
        if p < old_v.len() {
            lemma_seq_lt_total(old_v[p as int], xs);
        }
        assert forall|i: int, j: int| 0 <= i < j < nv.len() implies seq_lt(#[trigger] nv[i], #[trigger] nv[j]) by {
            if j < p {
                assert(nv[i] == old_v[i] && nv[j] == old_v[j]);
            } else if j == p {
                assert(nv[i] == old_v[i]);
            } else if i == p {
                assert(nv[j] == old_v[j - 1]);
                if j - 1 > p {
                    lemma_seq_lt_transitive(xs, old_v[p as int], old_v[j - 1]);
                }
            } else if i < p {
                assert(nv[i] == old_v[i] && nv[j] == old_v[j - 1]);
            } else {
                assert(nv[i] == old_v[i - 1] && nv[j] == old_v[j - 1]);
            }
        }
        assert forall|s: Seq<char>| nv.contains(s) <==> (old_v.contains(s) || s == xs) by {
            if nv.contains(s) {
                let k = choose|k: int| 0 <= k < nv.len() && nv[k] == s;
                if k < p {
                    assert(old_v[k] == s);
                } else if k > p {
                    assert(old_v[k - 1] == s);
                }
            }
            if old_v.contains(s) {
                let k = choose|k: int| 0 <= k < old_v.len() && old_v[k] == s;
                if k < p {
                    assert(nv[k] == s);
                } else {
                    assert(nv[k + 1] == s);
                }
            }
            if s == xs {
                assert(nv[p as int] == s);
            }
        }
    }
}

/// The captured values, each once, in lexicographic order.
pub fn sorted_captures(caps: &Vec<Option<String>>) -> (r: Vec<String>)
    ensures
        strictly_sorted(strings_view(r@)),
        forall|s: Seq<char>| strings_view(r@).contains(s) <==> captured(captures_view(caps@), s),
{
    let mut r: Vec<String> = Vec::new();
    let ghost cv = captures_view(caps@);
    for i in 0..caps.len()
        invariant
            cv == captures_view(caps@),
            strictly_sorted(strings_view(r@)),
            forall|s: Seq<char>|
                strings_view(r@).contains(s) <==> (exists|k: int| 0 <= k < i && cv[k] == Some(s)),
    {
        let ghost before = strings_view(r@);
        match &caps[i] {
            Some(name) => {
                insert_sorted(&mut r, name.clone());
            },
            None => {},
        }
        proof {
            assert forall|s: Seq<char>|
                strings_view(r@).contains(s) <==> (exists|k: int| 0 <= k < i + 1 && cv[k] == Some(s)) by {
                if exists|k: int| 0 <= k < i + 1 && cv[k] == Some(s) {
                    let k = choose|k: int| 0 <= k < i + 1 && cv[k] == Some(s);
                    if k < i {
                        assert(before.contains(s));
                    }
                }
                if strings_view(r@).contains(s) && !before.contains(s) {
                    assert(cv[i as int] == Some(s));
                }
            }
        }
    }
    r
}

/// The parameters that a prompt body names as `{{ name }}`, each once, in lexicographic
/// order (none where the pattern would not compile).
pub fn extract_body_params(body: &str) -> (r: Vec<String>)
    ensures
        match regex_group_one("\\{\\{\\s*(\\w+)\\s*\\}\\}"@, body@) {
            Some(caps) => strictly_sorted(strings_view(r@)) && forall|s: Seq<char>|
                strings_view(r@).contains(s) <==> captured(caps, s),
            None => r@.len() == 0,
        },
{
    match regex_group_one_captures("\\{\\{\\s*(\\w+)\\s*\\}\\}", body) {
        Some(caps) => sorted_captures(&caps),
        None => Vec::new(),
    }
}

/// The YAML frontmatter of a prompt file, as read.
#[derive(Debug)]
pub struct PromptFrontmatter {
    pub accept: Vec<String>,
    pub success: IndexMap<String, String>,
    pub failure: IndexMap<String, String>,
    pub params: IndexMap<String, ParamDef>,
}

/// A prompt file from its frontmatter and its body; the body's parameters are extracted.
pub fn prompt_from_parts(front: PromptFrontmatter, body: String) -> (p: PromptFile)
    ensures
        p.accept == front.accept,
        p.success == front.success,
        p.failure == front.failure,
        p.params == front.params,
        p.body@ == body@,
        match regex_group_one("\\{\\{\\s*(\\w+)\\s*\\}\\}"@, body@) {
            Some(caps) => strictly_sorted(strings_view(p.body_params@)) && forall|s: Seq<char>|
                strings_view(p.body_params@).contains(s) <==> captured(caps, s),
            None => p.body_params@.len() == 0,
        },
{
    let body_params = extract_body_params(body.as_str());
    PromptFile {
        accept: front.accept,
        success: front.success,
        failure: front.failure,
        params: front.params,
        body,
        body_params,
    }
}

/// The default of a parameter's `required` flag.
pub fn default_true() -> (b: bool)
    ensures
        b,
{
    true
}

/// A parameter as a value: (type, allowed values, required, default, description).
pub type ParamV = (ParamType, Seq<Seq<char>>, bool, Option<Seq<char>>, Option<Seq<char>>);

impl View for ParamDef {
    type V = ParamV;

    open spec fn view(&self) -> ParamV {
        (self.param_type, strings_view(self.values@), self.required, opt_view(self.default), opt_view(self.description))
    }
}

/// A prompt file as a value.
pub struct PromptV {
    pub accept: Seq<Seq<char>>,
    pub success: Seq<(Seq<char>, Seq<char>)>,
    pub failure: Seq<(Seq<char>, Seq<char>)>,
    pub params: Seq<(Seq<char>, ParamV)>,
    pub body: Seq<char>,
    pub body_params: Seq<Seq<char>>,
}

impl View for PromptFile {
    type V = PromptV;

    open spec fn view(&self) -> PromptV {
        PromptV {
            accept: strings_view(self.accept@),
            success: view_entries(outcome_entries(self.success)),
            failure: view_entries(outcome_entries(self.failure)),
            params: view_entries(param_entries(self.params)),
            body: self.body@,
            body_params: strings_view(self.body_params@),
        }
    }
}

/// A copy of a list of strings.
pub fn copy_strings(v: &Vec<String>) -> (r: Vec<String>)
    ensures
        strings_view(r@) == strings_view(v@),
{
    let mut r: Vec<String> = Vec::new();
    for i in 0..v.len()
        invariant
            r@.len() == i,
            forall|k: int| 0 <= k < i ==> (#[trigger] r@[k])@ == v@[k]@,
    {
        r.push(v[i].clone());
    }
    assert(strings_view(r@) =~= strings_view(v@));
    r
}

/// A copy of an optional string.
pub fn copy_opt(o: &Option<String>) -> (r: Option<String>)
    ensures
        opt_view(r) == opt_view(*o),
{
    match o {
        Some(s) => Some(s.clone()),
        None => None,
    }
}

/// A copy of a map of outcome routes, entry by entry.
pub fn copy_routes(m: &IndexMap<String, String>) -> (r: IndexMap<String, String>)
    ensures
        view_entries(outcome_entries(r)) == view_entries(outcome_entries(*m)),
{
    let ghost e = outcome_entries(*m);
    let mut r = outcomes_new();
    let n = outcomes_len(m);
    for i in 0..n
        invariant
            n == e.len(),
            e == outcome_entries(*m),
            outcome_entries(r).len() == i,
            forall|k: int| 0 <= k < i ==> (#[trigger] outcome_entries(r)[k]).0 == e[k].0 && outcome_entries(r)[k].1@ == e[k].1@,
    {
        if let Some((k, v)) = outcomes_at(m, i) {
            let ghost before = outcome_entries(r);
            let vc = v.clone();
            proof {
                assert forall|j: int| 0 <= j < before.len() implies (#[trigger] before[j]).0 != k@ by {
                    assert(e[j].0 != k@);
                }
                lemma_insert_fresh(before, k@, vc);
            }
            outcomes_insert(&mut r, k.clone(), vc);
            assert(outcome_entries(r)[i as int] == (k@, vc));
        }
    }
    assert(view_entries(outcome_entries(r)) =~= view_entries(e));
    r
}

impl ParamDef {
    /// A copy of the parameter.
    pub fn duplicate(&self) -> (r: ParamDef)
        ensures
            r@ == self@,
    {
        ParamDef {
            param_type: self.param_type,
            values: copy_strings(&self.values),
            required: self.required,
            default: copy_opt(&self.default),
            description: copy_opt(&self.description),
        }
    }
}

/// A copy of a map of parameters, entry by entry.
pub fn copy_params(m: &IndexMap<String, ParamDef>) -> (r: IndexMap<String, ParamDef>)
    ensures
        view_entries(param_entries(r)) == view_entries(param_entries(*m)),
{
    let ghost e = param_entries(*m);
    let mut r = params_new();
    let n = params_len(m);
    for i in 0..n
        invariant
            n == e.len(),
            e == param_entries(*m),
            param_entries(r).len() == i,
            forall|k: int| 0 <= k < i ==> (#[trigger] param_entries(r)[k]).0 == e[k].0 && param_entries(r)[k].1@ == e[k].1@,
    {
        if let Some((k, v)) = params_at(m, i) {
            let ghost before = param_entries(r);
            let d = v.duplicate();
            proof {
                assert forall|j: int| 0 <= j < before.len() implies (#[trigger] before[j]).0 != k@ by {
                    assert(e[j].0 != k@);
                }
                lemma_insert_fresh(before, k@, d);
            }
            params_insert(&mut r, k.clone(), d);
            assert(param_entries(r)[i as int] == (k@, d));
        }
    }
    assert(view_entries(param_entries(r)) =~= view_entries(e));
    r
}

impl PromptFile {
    /// A copy of the prompt file.
    pub fn duplicate(&self) -> (r: PromptFile)
        ensures
            r@ == self@,
    {
        PromptFile {
            accept: copy_strings(&self.accept),
            success: copy_routes(&self.success),
            failure: copy_routes(&self.failure),
            params: copy_params(&self.params),
            body: self.body.clone(),
            body_params: copy_strings(&self.body_params),
        }
    }
}
} // verus!
