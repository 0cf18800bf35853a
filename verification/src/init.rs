//! What `loom init` decides before it writes anything: the template, the workflow's name
//! and how the new directory is shown.
use vstd::prelude::*;
use crate::templates::get;
use crate::text::{chars_of, push_char, push_str};

verus! {

broadcast use vstd::string::group_string_axioms;

/// The template to use: the one named explicitly; else the directory's name where it is a
/// template's id; else the default template.
pub fn resolve_template_id<'a>(name: &'a str, template_id: Option<&'a str>) -> (r: &'a str)
    ensures
        r@ == match template_id {
            Some(t) => t@,
            None => if name@ == "minimal"@ || name@ == "knots_sdlc"@ {
                name@
            } else {
                "minimal"@
            },
        },
{
    if let Some(t) = template_id {
        return t;
    }
    if get(name).is_some() {
        return name;
    }
    crate::templates::default_template_id()
}

/// A directory as shown to the user: absolute paths as they are, relative ones under `./`,
/// each with a trailing `/`.
pub fn display_dir(path: &str) -> (r: String)
    ensures
        r@ == if path@.len() > 0 && path@[0] == '/' {
            path@ + "/"@
        } else {
            "./"@ + path@ + "/"@
        },
{
    let cs = chars_of(path);
    let mut s = if cs.len() > 0 && cs[0] == '/' {
        String::new()
    } else {
        String::from_str("./")
    };
    push_str(&mut s, path);
    push_str(&mut s, "/");
    s
}

pub open spec fn is_ascii_alnum(c: char) -> bool {
    ('0' <= c && c <= '9') || ('a' <= c && c <= 'z') || ('A' <= c && c <= 'Z')
}

/// A directory name as a Loom identifier: every character that is not an ASCII letter or
/// digit becomes `_`.
pub open spec fn identifier_of(raw: Seq<char>) -> Seq<char> {
    raw.map_values(|c: char| if is_ascii_alnum(c) { c } else { '_' })
}

/// The workflow name for a new directory named `raw`, or the message where no identifier
/// can be made of it (it is empty or starts with a digit).
pub fn workflow_name_from_dir_name(raw: &str) -> (r: Result<String, String>)
    ensures
        match r {
            Ok(n) => n@ == identifier_of(raw@) && raw@.len() > 0 && !('0' <= raw@[0] && raw@[0] <= '9'),
            Err(m) => m@ == "workflow directory name '"@ + raw@ + "' cannot be converted to a valid Loom identifier"@
                && (raw@.len() == 0 || ('0' <= raw@[0] && raw@[0] <= '9')),
        },
{
    let cs = chars_of(raw);
    let mut n = String::new();
    for i in 0..cs.len()
        invariant
            cs@ == raw@,
            n@ == identifier_of(raw@).take(i as int),
    {
        let c = cs[i];
        let ok = ('0' <= c && c <= '9') || ('a' <= c && c <= 'z') || ('A' <= c && c <= 'Z');
        push_char(&mut n, if ok { c } else { '_' });
        assert(n@ =~= identifier_of(raw@).take(i + 1));
    }
    assert(identifier_of(raw@).take(cs@.len() as int) =~= identifier_of(raw@));
    if cs.len() == 0 || ('0' <= cs[0] && cs[0] <= '9') {
        let mut m = String::from_str("workflow directory name '");
        push_str(&mut m, raw);
        push_str(&mut m, "' cannot be converted to a valid Loom identifier");
        return Err(m);
    }
    Ok(n)
}

} // verus!
