//! Character and string helpers shared by the lexer, the lowering pass and the emitters.
use vstd::prelude::*;

verus! {

broadcast use vstd::string::group_string_axioms;

/// Appends one character to a `String` (std's `String::push`).
#[verifier::external_body]
pub fn push_char(s: &mut String, c: char)
    ensures
        final(s)@ == old(s)@.push(c),
{
    s.push(c);
}

/// Appends the text of a `&str` to a `String`.
pub fn push_str(s: &mut String, t: &str)
    ensures
        final(s)@ == old(s)@ + t@,
{
    s.append(t);
}

/// The characters of a string, in order.
pub fn chars_of(s: &str) -> (v: Vec<char>)
    ensures
        v@ == s@,
{
    let mut v: Vec<char> = Vec::new();
    for c in it: s.chars()
        invariant
            v@ == it.seq().take(it.index() as int),
            it.seq() == s@,
    {
        v.push(c);
    }
    v
}


pub open spec fn ascii_upper(c: char) -> char {
    if 'a' <= c && c <= 'z' {
        ((c as int) - 32) as char
    } else {
        c
    }
}

/// Character `i` of the title-case form of a snake_case identifier: underscores become
/// spaces and the first letter of each word is capitalised.
pub open spec fn title_char(s: Seq<char>, i: int) -> char {
    if s[i] == '_' {
        ' '
    } else if i == 0 || s[i - 1] == '_' {
        ascii_upper(s[i])
    } else {
        s[i]
    }
}

/// `ready_for_triage` becomes `Ready For Triage`.
pub open spec fn title_case(s: Seq<char>) -> Seq<char> {
    Seq::new(s.len(), |i: int| title_char(s, i))
}

pub fn upper_char(c: char) -> (r: char)
    ensures
        r == ascii_upper(c),
{
    if 'a' <= c && c <= 'z' {
        let b: u8 = (c as u8) - 32;
        assert(b as int == c as int - 32);
        b as char
    } else {
        c
    }
}

/// Converts a snake_case identifier to Title Case.
pub fn snake_to_title_case(s: &str) -> (r: String)
    ensures
        r@ == title_case(s@),
{
    let cs = chars_of(s);
    let mut out = String::new();
    let mut i: usize = 0;
    while i < cs.len()
        invariant
            i <= cs.len(),
            cs@ == s@,
            out@ == title_case(s@).take(i as int),
        decreases cs.len() - i,
    {
        let c = cs[i];
        let t = if c == '_' {
            ' '
        } else if i == 0 || cs[i - 1] == '_' {
            upper_char(c)
        } else {
            c
        };
        push_char(&mut out, t);
        assert(title_case(s@).take(i + 1) =~= title_case(s@).take(i as int).push(t));
        i = i + 1;
    }
    assert(title_case(s@).take(i as int) =~= title_case(s@));
    out
}

/// The value of a string of decimal digits.
pub open spec fn decimal_value(s: Seq<char>) -> nat
    decreases s.len(),
{
    if s.len() == 0 {
        0
    } else {
        (decimal_value(s.drop_last()) * 10 + (s.last() as nat - '0' as nat)) as nat
    }
}

pub open spec fn all_decimal(s: Seq<char>) -> bool {
    forall|i: int| 0 <= i < s.len() ==> '0' <= #[trigger] s[i] <= '9'
}

/// Text that reads as a 64-bit signed integer: an optional sign, then decimal digits
/// whose value fits.
pub open spec fn i64_text(s: Seq<char>) -> bool {
    let signed = s.len() > 0 && (s[0] == '+' || s[0] == '-');
    let ds = if signed {
        s.drop_first()
    } else {
        s
    };
    let limit: nat = if signed && s[0] == '-' {
        0x8000_0000_0000_0000
    } else {
        0x7fff_ffff_ffff_ffff
    };
    &&& ds.len() > 0
    &&& all_decimal(ds)
    &&& decimal_value(ds) <= limit
}

proof fn lemma_decimal_value_grows(s: Seq<char>, i: int)
    requires
        0 <= i <= s.len(),
        all_decimal(s),
    ensures
        decimal_value(s.take(i)) <= decimal_value(s),
    decreases s.len() - i,
{
    if i < s.len() {
        lemma_decimal_value_grows(s, i + 1);
        assert(s.take(i + 1).drop_last() =~= s.take(i));
        assert(s.take(i + 1).last() == s[i]);
    } else {
        assert(s.take(i) =~= s);
    }
}

/// Whether `s` reads as a 64-bit signed integer (as `str::parse::<i64>` accepts it).
pub fn parses_as_i64(s: &str) -> (b: bool)
    ensures
        b == i64_text(s@),
{
    let cs = chars_of(s);
    let mut start: usize = 0;
    let mut limit: u64 = 0x7fff_ffff_ffff_ffff;
    if cs.len() > 0 && (cs[0] == '+' || cs[0] == '-') {
        start = 1;
        if cs[0] == '-' {
            limit = 0x8000_0000_0000_0000;
        }
    }
    let ghost ds = if start == 1 {
        cs@.drop_first()
    } else {
        cs@
    };
    assert(ds =~= cs@.subrange(start as int, cs@.len() as int));
    if start >= cs.len() {
        return false;
    }
    assert(cs@.subrange(start as int, start as int) =~= Seq::<char>::empty());
    let mut v: u64 = 0;
    let mut i: usize = start;
    while i < cs.len()
        invariant
            start <= i <= cs.len(),
            cs@ == s@,
            ds == cs@.subrange(start as int, cs@.len() as int),
            all_decimal(cs@.subrange(start as int, i as int)),
            v as nat == decimal_value(cs@.subrange(start as int, i as int)),
            v <= limit,
            limit == (if start == 1 && cs@[0] == '-' {
                0x8000_0000_0000_0000u64
            } else {
                0x7fff_ffff_ffff_ffffu64
            }),
            start == (if cs@.len() > 0 && (cs@[0] == '+' || cs@[0] == '-') {
                1usize
            } else {
                0usize
            }),
        decreases cs.len() - i,
    {
        let c = cs[i];
        if c < '0' || c > '9' {
            assert(!all_decimal(ds)) by {
                assert(ds[i - start] == c);
            }
            return false;
        }
        let d: u64 = (c as u64) - ('0' as u64);
        assert(cs@.subrange(start as int, i + 1).drop_last() =~= cs@.subrange(start as int, i as int));
        assert(cs@.subrange(start as int, i + 1).last() == c);
        if v > (limit - d) / 10 {
            proof {
                let nv = decimal_value(cs@.subrange(start as int, i + 1));
                assert(nv == v * 10 + d) by (nonlinear_arith)
                    requires
                        nv == v * 10 + d;
                assert(nv > limit) by (nonlinear_arith)
                    requires
                        v > (limit - d) / 10,
                        nv == v * 10 + d,
                        d <= 9,
                        d <= limit;
                if all_decimal(ds) {
                    assert(ds.take(i + 1 - start) =~= cs@.subrange(start as int, i + 1));
                    lemma_decimal_value_grows(ds, i + 1 - start);
                    assert(decimal_value(ds) > limit);
                    let signed = s@.len() > 0 && (s@[0] == '+' || s@[0] == '-');
                    let sds = if signed {
                        s@.drop_first()
                    } else {
                        s@
                    };
                    let slimit: nat = if signed && s@[0] == '-' {
                        0x8000_0000_0000_0000
                    } else {
                        0x7fff_ffff_ffff_ffff
                    };
                    assert(sds == ds);
                    assert(slimit == limit);
                    assert(!i64_text(s@));
                }
            }
            return false;
        }
        assert(v * 10 + d <= limit) by (nonlinear_arith)
            requires
                v <= (limit - d) / 10,
                d <= 9,
                d <= limit;
        v = v * 10 + d;
        i = i + 1;
    }
    assert(cs@.subrange(start as int, i as int) =~= ds);
    true
}

/// Lexicographic order of character sequences, by code point (the order of `String`'s `<`).
pub open spec fn seq_lt(a: Seq<char>, b: Seq<char>) -> bool
    decreases a.len(),
{
    if a.len() == 0 {
        b.len() > 0
    } else if b.len() == 0 {
        false
    } else if a[0] != b[0] {
        (a[0] as int) < (b[0] as int)
    } else {
        seq_lt(a.drop_first(), b.drop_first())
    }
}

pub proof fn lemma_seq_lt_irreflexive(a: Seq<char>)
    ensures
        !seq_lt(a, a),
    decreases a.len(),
{
    if a.len() > 0 {
        lemma_seq_lt_irreflexive(a.drop_first());
    }
}

pub proof fn lemma_seq_lt_transitive(a: Seq<char>, b: Seq<char>, c: Seq<char>)
    requires
        seq_lt(a, b),
        seq_lt(b, c),
    ensures
        seq_lt(a, c),
    decreases a.len(),
{
    if a.len() > 0 && b.len() > 0 && c.len() > 0 && a[0] == b[0] && b[0] == c[0] {
        lemma_seq_lt_transitive(a.drop_first(), b.drop_first(), c.drop_first());
    }
}

pub proof fn lemma_seq_lt_total(a: Seq<char>, b: Seq<char>)
    ensures
        a == b || seq_lt(a, b) || seq_lt(b, a),
    decreases a.len(),
{
    if a.len() > 0 && b.len() > 0 && a[0] == b[0] {
        lemma_seq_lt_total(a.drop_first(), b.drop_first());
        if a.drop_first() == b.drop_first() {
            assert(a =~= seq![a[0]] + a.drop_first());
            assert(b =~= seq![b[0]] + b.drop_first());
        }
    } else if a.len() == 0 && b.len() == 0 {
        assert(a =~= b);
    } else if a.len() > 0 && b.len() > 0 {
        assert((a[0] as int) != (b[0] as int));
    }
}

/// Whether `a` comes before `b` in lexicographic order.
pub fn str_lt(a: &str, b: &str) -> (r: bool)
    ensures
        r == seq_lt(a@, b@),
{
    let x = chars_of(a);
    let y = chars_of(b);
    let mut i: usize = 0;
    assert(x@.skip(0) =~= x@);
    assert(y@.skip(0) =~= y@);
    while i < x.len() && i < y.len() && x[i] == y[i]
        invariant
            i <= x.len(),
            i <= y.len(),
            seq_lt(a@, b@) == seq_lt(x@.skip(i as int), y@.skip(i as int)),
        decreases x.len() - i,
    {
        assert(x@.skip(i as int).drop_first() =~= x@.skip(i + 1));
        assert(y@.skip(i as int).drop_first() =~= y@.skip(i + 1));
        i = i + 1;
    }
    if i == x.len() {
        i < y.len()
    } else if i == y.len() {
        false
    } else {
        let cx = x[i];
        let cy = y[i];
        cx < cy
    }
}

/// The decimal digit for `d` (below ten).
pub open spec fn digit_char(d: nat) -> char {
    if d == 0 { '0' } else if d == 1 { '1' } else if d == 2 { '2' } else if d == 3 { '3' } else if d == 4 {
        '4'
    } else if d == 5 { '5' } else if d == 6 { '6' } else if d == 7 { '7' } else if d == 8 { '8' } else { '9' }
}

/// The decimal text of `n`, without leading zeros.
pub open spec fn nat_text(n: nat) -> Seq<char>
    decreases n,
{
    if n < 10 {
        seq![digit_char(n)]
    } else {
        nat_text(n / 10).push(digit_char(n % 10))
    }
}

fn digit_of(d: u64) -> (c: char)
    requires
        d < 10,
    ensures
        c == digit_char(d as nat),
{
    if d == 0 { '0' } else if d == 1 { '1' } else if d == 2 { '2' } else if d == 3 { '3' } else if d == 4 {
        '4'
    } else if d == 5 { '5' } else if d == 6 { '6' } else if d == 7 { '7' } else if d == 8 { '8' } else { '9' }
}

/// The decimal text of `n`.
pub fn u64_text(n: u64) -> (r: String)
    ensures
        r@ == nat_text(n as nat),
    decreases n,
{
    if n < 10 {
        let mut s = String::new();
        push_char(&mut s, digit_of(n));
        s
    } else {
        let mut s = u64_text(n / 10);
        push_char(&mut s, digit_of(n % 10));
        s
    }
}

/// `s` with each `"` preceded by a backslash.
pub open spec fn escape_quotes(s: Seq<char>) -> Seq<char>
    decreases s.len(),
{
    if s.len() == 0 {
        Seq::empty()
    } else {
        escape_quotes(s.drop_last()) + if s.last() == '"' {
            seq!['\\', '"']
        } else {
            seq![s.last()]
        }
    }
}

/// `s` with each `"` preceded by a backslash (`str::replace('"', "\\\"")`).
pub fn escape_quotes_of(s: &str) -> (r: String)
    ensures
        r@ == escape_quotes(s@),
{
    let cs = chars_of(s);
    let mut r = String::new();
    for i in 0..cs.len()
        invariant
            cs@ == s@,
            r@ == escape_quotes(s@.take(i as int)),
    {
        if cs[i] == '"' {
            push_char(&mut r, '\\');
        }
        push_char(&mut r, cs[i]);
        assert(s@.take(i + 1).drop_last() =~= s@.take(i as int));
    }
    assert(s@.take(cs.len() as int) =~= s@);
    r
}

/// Whether two strings hold the same characters.
pub fn str_equal(a: &str, b: &str) -> (r: bool)
    ensures
        r == (a@ == b@),
{
    let x = chars_of(a);
    let y = chars_of(b);
    if x.len() != y.len() {
        return false;
    }
    for i in 0..x.len()
        invariant
            x@ == a@,
            y@ == b@,
            x@.len() == y@.len(),
            forall|j: int| 0 <= j < i ==> x@[j] == y@[j],
    {
        if x[i] != y[i] {
            return false;
        }
    }
    assert(x@ =~= y@);
    true
}

/// Whether `s` begins with `prefix`.
pub fn str_starts_with(s: &str, prefix: &str) -> (r: bool)
    ensures
        r == (prefix@.len() <= s@.len() && s@.subrange(0, prefix@.len() as int) == prefix@),
{
    let x = chars_of(s);
    let p = chars_of(prefix);
    if p.len() > x.len() {
        return false;
    }
    for i in 0..p.len()
        invariant
            x@ == s@,
            p@ == prefix@,
            p@.len() <= x@.len(),
            forall|j: int| 0 <= j < i ==> x@[j] == p@[j],
    {
        if x[i] != p[i] {
            assert(s@.subrange(0, prefix@.len() as int)[i as int] != prefix@[i as int]);
            return false;
        }
    }
    assert(s@.subrange(0, prefix@.len() as int) =~= prefix@);
    true
}
/// Whether `c` has Unicode's White_Space property, which `char::is_whitespace` tests.
pub open spec fn is_white_space(c: char) -> bool {
    ||| '\u{9}' <= c <= '\u{d}'
    ||| c == ' ' || c == '\u{85}' || c == '\u{a0}' || c == '\u{1680}'
    ||| '\u{2000}' <= c <= '\u{200a}'
    ||| c == '\u{2028}' || c == '\u{2029}' || c == '\u{202f}' || c == '\u{205f}' || c == '\u{3000}'
}

/// Whether `c` is white space.
pub fn is_whitespace_char(c: char) -> (r: bool)
    ensures
        r == is_white_space(c),
{
    ('\u{9}' <= c && c <= '\u{d}') || c == ' ' || c == '\u{85}' || c == '\u{a0}' || c == '\u{1680}'
        || ('\u{2000}' <= c && c <= '\u{200a}') || c == '\u{2028}' || c == '\u{2029}'
        || c == '\u{202f}' || c == '\u{205f}' || c == '\u{3000}'
}

/// `s` without its leading white space.
pub open spec fn trim_start(s: Seq<char>) -> Seq<char>
    decreases s.len(),
{
    if s.len() > 0 && is_white_space(s[0]) {
        trim_start(s.drop_first())
    } else {
        s
    }
}

/// `s` without its trailing white space.
pub open spec fn trim_end(s: Seq<char>) -> Seq<char>
    decreases s.len(),
{
    if s.len() > 0 && is_white_space(s.last()) {
        trim_end(s.drop_last())
    } else {
        s
    }
}

/// `s` without its leading and trailing white space (`str::trim`).
pub open spec fn trim(s: Seq<char>) -> Seq<char> {
    trim_end(trim_start(s))
}

/// Where the text of `cs[lo..hi]` is trimmed of white space at both ends, the bounds of what
/// is left.
pub fn trimmed_bounds(cs: &Vec<char>, lo: usize, hi: usize) -> (r: (usize, usize))
    requires
        lo <= hi <= cs@.len(),
    ensures
        lo <= r.0 <= r.1 <= hi,
        cs@.subrange(r.0 as int, r.1 as int) == trim(cs@.subrange(lo as int, hi as int)),
{
    let mut a = lo;
    while a < hi && is_whitespace_char(cs[a])
        invariant
            lo <= a <= hi <= cs@.len(),
            trim_start(cs@.subrange(lo as int, hi as int)) == trim_start(cs@.subrange(a as int, hi as int)),
        decreases hi - a,
    {
        assert(cs@.subrange(a as int, hi as int).drop_first() =~= cs@.subrange(a + 1, hi as int));
        a = a + 1;
    }
    assert(a < hi ==> cs@.subrange(a as int, hi as int)[0] == cs@[a as int]);
    let mut b = hi;
    while b > a && is_whitespace_char(cs[b - 1])
        invariant
            lo <= a <= b <= hi <= cs@.len(),
            trim_end(cs@.subrange(a as int, hi as int)) == trim_end(cs@.subrange(a as int, b as int)),
        decreases b,
    {
        assert(cs@.subrange(a as int, b as int).drop_last() =~= cs@.subrange(a as int, b - 1));
        b = b - 1;
    }
    assert(b > a ==> cs@.subrange(a as int, b as int).last() == cs@[b - 1]);
    (a, b)
}

/// Whether `t` occurs in `s`.
pub open spec fn contains_text(s: Seq<char>, t: Seq<char>) -> bool {
    exists|i: int| 0 <= i && i + t.len() <= s.len() && #[trigger] s.subrange(i, i + t.len()) == t
}

/// A text that holds `m` still holds it with anything before and after it.
pub proof fn lemma_contains_within(p: Seq<char>, s: Seq<char>, q: Seq<char>, m: Seq<char>)
    requires
        contains_text(s, m),
    ensures
        contains_text(p + s + q, m),
{
    let i = choose|i: int| 0 <= i && i + m.len() <= s.len() && #[trigger] s.subrange(i, i + m.len()) == m;
    assert((p + s + q).subrange(p.len() + i, p.len() + i + m.len()) =~= s.subrange(i, i + m.len()));
}

/// A text holds each of its prefixes.
pub proof fn lemma_contains_prefix(m: Seq<char>, q: Seq<char>)
    ensures
        contains_text(m + q, m),
{
    assert((m + q).subrange(0int, 0int + m.len()) =~= m);
}

/// Whether `t` occurs in `s` (`str::contains`).
pub fn str_contains(s: &str, t: &str) -> (r: bool)
    ensures
        r == contains_text(s@, t@),
{
    let x = chars_of(s);
    let p = chars_of(t);
    if p.len() > x.len() {
        return false;
    }
    if p.len() == 0 {
        assert(s@.subrange(0int, 0int + t@.len()) =~= t@);
        return true;
    }
    let n = x.len();
    let last = n - p.len();
    for i in 0..last + 1
        invariant
            x@ == s@,
            p@ == t@,
            p@.len() <= x@.len(),
            last == x@.len() - p@.len(),
            n == x@.len(),
            forall|k: int| 0 <= k < i ==> #[trigger] s@.subrange(k, k + t@.len()) != t@,
    {
        let mut same = true;
        for j in 0..p.len()
            invariant
                x@ == s@,
                p@ == t@,
                i <= last,
                last == x@.len() - p@.len(),
                n == x@.len(),
                same == forall|m: int| 0 <= m < j ==> x@[i + m] == p@[m],
        {
            assert(i + j < n);
            if x[i + j] != p[j] {
                same = false;
            }
        }
        if same {
            assert(s@.subrange(i as int, i + t@.len()) =~= t@);
            return true;
        }
        assert(s@.subrange(i as int, i + t@.len()) != t@) by {
            let m = choose|m: int| 0 <= m < p@.len() && x@[i + m] != p@[m];
            assert(s@.subrange(i as int, i + t@.len())[m] != t@[m]);
        }
    }
    false
}

/// The value of text that reads as an unsigned machine-size integer (as `str::parse::<usize>`
/// accepts it): an optional `+`, then decimal digits whose value fits.
pub open spec fn usize_text(s: Seq<char>) -> Option<nat> {
    let ds = if s.len() > 0 && s[0] == '+' {
        s.drop_first()
    } else {
        s
    };
    if ds.len() > 0 && all_decimal(ds) && decimal_value(ds) <= usize::MAX {
        Some(decimal_value(ds))
    } else {
        None
    }
}

/// Reads `s` as an unsigned machine-size integer.
pub fn parse_usize(s: &str) -> (r: Option<usize>)
    ensures
        match usize_text(s@) {
            Some(v) => r == Some(v as usize),
            None => r is None,
        },
{
    let cs = chars_of(s);
    let start: usize = if cs.len() > 0 && cs[0] == '+' { 1 } else { 0 };
    let ghost ds = if s@.len() > 0 && s@[0] == '+' {
        s@.drop_first()
    } else {
        s@
    };
    assert(ds =~= cs@.subrange(start as int, cs@.len() as int));
    if start >= cs.len() {
        return None;
    }
    assert(cs@.subrange(start as int, start as int) =~= Seq::<char>::empty());
    let mut v: usize = 0;
    let mut i: usize = start;
    while i < cs.len()
        invariant
            start <= i <= cs.len(),
            cs@ == s@,
            ds == cs@.subrange(start as int, cs@.len() as int),
            ds == (if s@.len() > 0 && s@[0] == '+' {
                s@.drop_first()
            } else {
                s@
            }),
            all_decimal(cs@.subrange(start as int, i as int)),
            v as nat == decimal_value(cs@.subrange(start as int, i as int)),
        decreases cs.len() - i,
    {
        let c = cs[i];
        if c < '0' || c > '9' {
            assert(!all_decimal(ds)) by {
                assert(ds[i - start] == c);
            }
            return None;
        }
        let d: usize = (c as u32 - '0' as u32) as usize;
        assert(cs@.subrange(start as int, i + 1).drop_last() =~= cs@.subrange(start as int, i as int));
        assert(cs@.subrange(start as int, i + 1).last() == c);
        if v > (usize::MAX - d) / 10 {
            proof {
                let nv = decimal_value(cs@.subrange(start as int, i + 1));
                assert(nv > usize::MAX) by (nonlinear_arith)
                    requires
                        v > (usize::MAX - d) / 10,
                        nv == v * 10 + d,
                        d <= 9,
                ;
                if all_decimal(ds) {
                    assert(ds.take(i + 1 - start) =~= cs@.subrange(start as int, i + 1));
                    lemma_decimal_value_grows(ds, i + 1 - start);
                }
            }
            return None;
        }
        assert(v * 10 + d <= usize::MAX) by (nonlinear_arith)
            requires
                v <= (usize::MAX - d) / 10,
                d <= 9,
        ;
        v = v * 10 + d;
        i = i + 1;
    }
    assert(cs@.subrange(start as int, i as int) =~= ds);
    Some(v)
}

} // verus!
