//! The token engine behind every template: `{token}` substitution in one
//! left-to-right scan, backslash escapes, and HTML escaping.
//!
//! `{{` and `}}` are literal braces, an unknown token is passed through
//! untouched, and a substituted value is never scanned again, so a fragment
//! that happens to contain `{index}` comes out exactly as it went in.

use vstd::prelude::*;

use crate::text::{copy_range, push_all};

verus! {

/// Token names paired with the text that replaces them.
pub type Bindings = Vec<(Vec<char>, Vec<char>)>;

/// The bindings as values.
pub open spec fn binds_view(b: Seq<(Vec<char>, Vec<char>)>) -> Seq<(Seq<char>, Seq<char>)> {
    b.map_values(|p: (Vec<char>, Vec<char>)| (p.0@, p.1@))
}

/// The value bound to `tok`, from the first binding with that name.
pub open spec fn lookup(b: Seq<(Seq<char>, Seq<char>)>, tok: Seq<char>) -> Option<Seq<char>>
    decreases b.len(),
{
    if b.len() == 0 {
        None
    } else if b[0].0 == tok {
        Some(b[0].1)
    } else {
        lookup(b.drop_first(), tok)
    }
}

/// The HTML form of one character: the five markup characters become
/// entities, everything else stays.
pub open spec fn escape_char(c: char) -> Seq<char> {
    if c == '&' {
        seq!['&', 'a', 'm', 'p', ';']
    } else if c == '<' {
        seq!['&', 'l', 't', ';']
    } else if c == '>' {
        seq!['&', 'g', 't', ';']
    } else if c == '"' {
        seq!['&', 'q', 'u', 'o', 't', ';']
    } else if c == '\'' {
        seq!['&', '#', '3', '9', ';']
    } else {
        seq![c]
    }
}

/// `s` with every character escaped for HTML.
pub open spec fn escaped(s: Seq<char>) -> Seq<char>
    decreases s.len(),
{
    if s.len() == 0 {
        seq![]
    } else {
        escape_char(s[0]) + escaped(s.drop_first())
    }
}

/// Literal text of a template: escaped when the output is HTML.
pub open spec fn lit(c: char, esc: bool) -> Seq<char> {
    if esc {
        escape_char(c)
    } else {
        seq![c]
    }
}

/// A run of literal text of a template.
pub open spec fn lits(s: Seq<char>, esc: bool) -> Seq<char> {
    if esc {
        escaped(s)
    } else {
        s
    }
}

pub open spec fn is_brace(c: char) -> bool {
    c == '{' || c == '}'
}

/// Where the first brace of `s` is, or its length when there is none.
pub open spec fn first_brace(s: Seq<char>) -> nat
    decreases s.len(),
{
    if s.len() == 0 || is_brace(s[0]) {
        0
    } else {
        1 + first_brace(s.drop_first())
    }
}

/// Token substitution over `s`.
///
/// A doubled brace is one literal brace. A lone `}` is literal. A `{` whose
/// next brace is a `}` opens a token: a bound token becomes its value, an
/// unbound one stays as typed. Any other `{` is literal. With `esc`, literal
/// text is HTML-escaped while values are inserted as they are.
pub open spec fn expand_spec(s: Seq<char>, b: Seq<(Seq<char>, Seq<char>)>, esc: bool) -> Seq<
    char,
>
    decreases s.len(),
{
    if s.len() == 0 {
        seq![]
    } else if !is_brace(s[0]) {
        lit(s[0], esc) + expand_spec(s.drop_first(), b, esc)
    } else if s.len() >= 2 && s[1] == s[0] {
        seq![s[0]] + expand_spec(s.skip(2), b, esc)
    } else if s[0] == '}' {
        seq!['}'] + expand_spec(s.drop_first(), b, esc)
    } else {
        let after = s.drop_first();
        let k = first_brace(after);
        if k < after.len() && after[k as int] == '}' {
            let tok = after.take(k as int);
            let v = match lookup(b, tok) {
                Some(v) => v,
                None => seq!['{'] + lits(tok, esc) + seq!['}'],
            };
            v + expand_spec(after.skip(k + 1int), b, esc)
        } else {
            seq!['{'] + expand_spec(after, b, esc)
        }
    }
}

/// The character a backslash escape stands for: `\n`, `\t`, `\r`, `\0` and
/// `\\`. Any other escape is kept as both characters.
pub open spec fn unescape_pair(c: char) -> Seq<char> {
    if c == 'n' {
        seq!['\n']
    } else if c == 't' {
        seq!['\t']
    } else if c == 'r' {
        seq!['\r']
    } else if c == '0' {
        seq!['\0']
    } else if c == '\\' {
        seq!['\\']
    } else {
        seq!['\\', c]
    }
}

/// `s` with its two-character escapes turned into what they stand for. A
/// trailing lone backslash stays.
pub open spec fn unescape_spec(s: Seq<char>) -> Seq<char>
    decreases s.len(),
{
    if s.len() == 0 {
        seq![]
    } else if s[0] != '\\' {
        seq![s[0]] + unescape_spec(s.drop_first())
    } else if s.len() == 1 {
        seq!['\\']
    } else {
        unescape_pair(s[1]) + unescape_spec(s.skip(2))
    }
}

/// Append the HTML form of `c`.
fn push_escaped(out: &mut Vec<char>, c: char)
    ensures
        final(out)@ == old(out)@ + escape_char(c),
{
    if c == '&' {
        out.push('&');
        out.push('a');
        out.push('m');
        out.push('p');
        out.push(';');
    } else if c == '<' {
        out.push('&');
        out.push('l');
        out.push('t');
        out.push(';');
    } else if c == '>' {
        out.push('&');
        out.push('g');
        out.push('t');
        out.push(';');
    } else if c == '"' {
        out.push('&');
        out.push('q');
        out.push('u');
        out.push('o');
        out.push('t');
        out.push(';');
    } else if c == '\'' {
        out.push('&');
        out.push('#');
        out.push('3');
        out.push('9');
        out.push(';');
    } else {
        out.push(c);
    }
    proof {
        assert(out@ =~= old(out)@ + escape_char(c));
    }
}

fn push_lit(out: &mut Vec<char>, c: char, esc: bool)
    ensures
        final(out)@ == old(out)@ + lit(c, esc),
{
    if esc {
        push_escaped(out, c);
    } else {
        out.push(c);
        proof {
            assert(out@ =~= old(out)@ + seq![c]);
        }
    }
}

/// `s` escaped for HTML.
pub fn escape(s: &[char]) -> (r: Vec<char>)
    ensures
        r@ == escaped(s@),
{
    let mut out: Vec<char> = Vec::new();
    let mut i: usize = 0;
    proof {
        assert(s@.skip(0) =~= s@);
        assert(Seq::<char>::empty() + escaped(s@) =~= escaped(s@));
    }
    while i < s.len()
        invariant
            i <= s.len(),
            escaped(s@) == out@ + escaped(s@.skip(i as int)),
        decreases s.len() - i,
    {
        let ghost before = out@;
        push_escaped(&mut out, s[i]);
        proof {
            let rest = s@.skip(i as int);
            assert(rest[0] == s@[i as int]);
            assert(rest.drop_first() =~= s@.skip(i + 1));
            assert(before + (escape_char(s@[i as int]) + escaped(s@.skip(i + 1))) =~= out@
                + escaped(s@.skip(i + 1)));
        }
        i = i + 1;
    }
    proof {
        assert(s@.skip(s.len() as int) =~= Seq::<char>::empty());
        assert(out@ + Seq::<char>::empty() =~= out@);
    }
    out
}

fn push_lits(out: &mut Vec<char>, s: &[char], esc: bool)
    ensures
        final(out)@ == old(out)@ + lits(s@, esc),
{
    if esc {
        let e = escape(s);
        push_all(out, e.as_slice());
    } else {
        push_all(out, s);
    }
}

/// Turn the two-character escapes a single-line text input can carry into
/// the characters they stand for.
pub fn unescape_chars(raw: &[char]) -> (r: Vec<char>)
    ensures
        r@ == unescape_spec(raw@),
{
    let n = raw.len();
    let mut out: Vec<char> = Vec::new();
    let mut i: usize = 0;
    proof {
        assert(raw@.skip(0) =~= raw@);
        assert(Seq::<char>::empty() + unescape_spec(raw@) =~= unescape_spec(raw@));
    }
    while i < n
        invariant
            i <= n == raw@.len(),
            unescape_spec(raw@) == out@ + unescape_spec(raw@.skip(i as int)),
        decreases n - i,
    {
        let ghost rest = raw@.skip(i as int);
        let ghost before = out@;
        let c = raw[i];
        assert(rest[0] == c);
        if c != '\\' {
            out.push(c);
            proof {
                assert(rest.drop_first() =~= raw@.skip(i + 1));
                assert(before + (seq![c] + unescape_spec(rest.drop_first())) =~= out@
                    + unescape_spec(raw@.skip(i + 1)));
            }
            i = i + 1;
        } else if n - i == 1 {
            out.push('\\');
            proof {
                assert(raw@.skip(i + 1) =~= Seq::<char>::empty());
                assert(before + seq!['\\'] =~= out@ + unescape_spec(raw@.skip(i + 1)));
            }
            i = i + 1;
        } else {
            let d = raw[i + 1];
            assert(rest[1] == d);
            if d == 'n' {
                out.push('\n');
            } else if d == 't' {
                out.push('\t');
            } else if d == 'r' {
                out.push('\r');
            } else if d == '0' {
                out.push('\0');
            } else if d == '\\' {
                out.push('\\');
            } else {
                out.push('\\');
                out.push(d);
            }
            proof {
                assert(out@ =~= before + unescape_pair(d));
                assert(rest.skip(2) =~= raw@.skip(i + 2));
                assert(before + (unescape_pair(d) + unescape_spec(rest.skip(2))) =~= out@
                    + unescape_spec(raw@.skip(i + 2)));
            }
            i = i + 2;
        }
    }
    proof {
        assert(raw@.skip(n as int) =~= Seq::<char>::empty());
        assert(out@ + Seq::<char>::empty() =~= out@);
    }
    out
}

/// The value bound to `tok`, if any.
pub fn find_binding(b: &[(Vec<char>, Vec<char>)], tok: &[char]) -> (r: Option<Vec<char>>)
    ensures
        match r {
            Some(v) => lookup(binds_view(b@), tok@) == Some(v@),
            None => lookup(binds_view(b@), tok@) is None,
        },
{
    let ghost bv = binds_view(b@);
    let mut i: usize = 0;
    proof {
        assert(bv.skip(0) =~= bv);
    }
    while i < b.len()
        invariant
            i <= b.len(),
            bv == binds_view(b@),
            lookup(bv, tok@) == lookup(bv.skip(i as int), tok@),
        decreases b.len() - i,
    {
        let ghost rest = bv.skip(i as int);
        assert(rest[0] == (b@[i as int].0@, b@[i as int].1@));
        if crate::text::chars_eq(b[i].0.as_slice(), tok) {
            return Some(copy_range(b[i].1.as_slice(), 0, b[i].1.len()));
        }
        proof {
            assert(rest.drop_first() =~= bv.skip(i + 1));
            assert(b@[i as int].1@.subrange(0, b@[i as int].1@.len() as int) =~= b@[i as int].1@);
        }
        i = i + 1;
    }
    None
}

proof fn lemma_first_brace(s: Seq<char>, k: int)
    requires
        0 <= k <= s.len(),
        forall|m: int| 0 <= m < k ==> !is_brace(#[trigger] s[m]),
        k == s.len() || is_brace(s[k]),
    ensures
        first_brace(s) == k,
    decreases k,
{
    if k > 0 {
        assert(!is_brace(s[0]));
        let t = s.drop_first();
        assert forall|m: int| 0 <= m < k - 1 implies !is_brace(#[trigger] t[m]) by {
            assert(t[m] == s[m + 1]);
        }
        if k < s.len() {
            assert(t[k - 1] == s[k]);
        }
        lemma_first_brace(t, k - 1);
    }
}

/// One step of `expand` at a `{` that is not doubled: a token, or a literal
/// brace. Returns where the scan goes on.
fn expand_open_brace(
    fmt: &[char],
    b: &[(Vec<char>, Vec<char>)],
    esc: bool,
    i: usize,
    out: &mut Vec<char>,
) -> (next: usize)
    requires
        i < fmt@.len(),
        fmt@[i as int] == '{',
        !(fmt@.len() - i > 1 && fmt@[i + 1] == '{'),
    ensures
        i < next <= fmt@.len(),
        old(out)@ + expand_spec(fmt@.skip(i as int), binds_view(b@), esc) == final(out)@
            + expand_spec(fmt@.skip(next as int), binds_view(b@), esc),
{
    let ghost bv = binds_view(b@);
    let ghost s = fmt@.skip(i as int);
    let ghost before = out@;
    let n = fmt.len();
    proof {
        assert(s[0] == '{');
        if s.len() >= 2 {
            assert(s[1] == fmt@[i + 1]);
        }
    }
    let ghost after = s.drop_first();
    let mut j: usize = i + 1;
    while j < n && fmt[j] != '{' && fmt[j] != '}'
        invariant
            i < j <= n == fmt@.len(),
            after == fmt@.skip(i + 1),
            forall|m: int| 0 <= m < j - (i + 1) ==> !is_brace(#[trigger] after[m]),
        decreases n - j,
    {
        assert(after[j - (i + 1)] == fmt@[j as int]);
        j = j + 1;
    }
    let k = j - (i + 1);
    proof {
        assert(after =~= fmt@.skip(i + 1));
        if j < n {
            assert(after[k as int] == fmt@[j as int]);
        }
        lemma_first_brace(after, k as int);
    }
    if j < n && fmt[j] == '}' {
        let tok = copy_range(fmt, i + 1, j);
        proof {
            assert(tok@ =~= after.take(k as int));
        }
        match find_binding(b, tok.as_slice()) {
            Some(v) => {
                push_all(out, v.as_slice());
            },
            None => {
                out.push('{');
                push_lits(out, tok.as_slice(), esc);
                out.push('}');
            },
        }
        proof {
            let v = match lookup(bv, tok@) {
                Some(v) => v,
                None => seq!['{'] + lits(tok@, esc) + seq!['}'],
            };
            assert(out@ =~= before + v);
            assert(after.skip(k + 1) =~= fmt@.skip(j + 1));
            assert(expand_spec(s, bv, esc) == v + expand_spec(after.skip(k + 1), bv, esc));
            assert(before + (v + expand_spec(after.skip(k + 1), bv, esc)) =~= out@ + expand_spec(
                fmt@.skip(j + 1),
                bv,
                esc,
            ));
        }
        j + 1
    } else {
        out.push('{');
        proof {
            assert(expand_spec(s, bv, esc) == seq!['{'] + expand_spec(after, bv, esc));
            assert(before + (seq!['{'] + expand_spec(after, bv, esc)) =~= out@ + expand_spec(
                fmt@.skip(i + 1),
                bv,
                esc,
            ));
        }
        i + 1
    }
}

/// Substitute `{token}` occurrences in `fmt` from `b`, escaping the literal
/// text for HTML when `esc` is set.
pub fn expand(fmt: &[char], b: &[(Vec<char>, Vec<char>)], esc: bool) -> (r: Vec<char>)
    ensures
        r@ == expand_spec(fmt@, binds_view(b@), esc),
{
    let ghost bv = binds_view(b@);
    let n = fmt.len();
    let mut out: Vec<char> = Vec::new();
    let mut i: usize = 0;
    proof {
        assert(fmt@.skip(0) =~= fmt@);
        assert(Seq::<char>::empty() + expand_spec(fmt@, bv, esc) =~= expand_spec(fmt@, bv, esc));
    }
    while i < n
        invariant
            i <= n == fmt@.len(),
            bv == binds_view(b@),
            expand_spec(fmt@, bv, esc) == out@ + expand_spec(fmt@.skip(i as int), bv, esc),
        decreases n - i,
    {
        let ghost s = fmt@.skip(i as int);
        let ghost before = out@;
        let c = fmt[i];
        assert(s[0] == c);
        if c != '{' && c != '}' {
            push_lit(&mut out, c, esc);
            proof {
                assert(s.drop_first() =~= fmt@.skip(i + 1));
                assert(before + (lit(c, esc) + expand_spec(s.drop_first(), bv, esc)) =~= out@
                    + expand_spec(fmt@.skip(i + 1), bv, esc));
            }
            i = i + 1;
        } else if n - i > 1 && fmt[i + 1] == c {
            out.push(c);
            proof {
                assert(s[1] == fmt@[i + 1]);
                assert(s.skip(2) =~= fmt@.skip(i + 2));
                assert(before + (seq![c] + expand_spec(s.skip(2), bv, esc)) =~= out@
                    + expand_spec(fmt@.skip(i + 2), bv, esc));
            }
            i = i + 2;
        } else if c == '}' {
            out.push('}');
            proof {
                if s.len() >= 2 {
                    assert(s[1] == fmt@[i + 1]);
                }
                assert(s.drop_first() =~= fmt@.skip(i + 1));
                assert(before + (seq!['}'] + expand_spec(s.drop_first(), bv, esc)) =~= out@
                    + expand_spec(fmt@.skip(i + 1), bv, esc));
            }
            i = i + 1;
        } else {
            i = expand_open_brace(fmt, b, esc, i, &mut out);
        }
    }
    proof {
        assert(fmt@.skip(n as int) =~= Seq::<char>::empty());
        assert(out@ + Seq::<char>::empty() =~= out@);
    }
    out
}

/// No brace anywhere in `s`.
pub open spec fn brace_free(s: Seq<char>) -> bool {
    forall|i: int| 0 <= i < s.len() ==> !is_brace(#[trigger] s[i])
}

/// No backslash anywhere in `s`.
pub open spec fn backslash_free(s: Seq<char>) -> bool {
    forall|i: int| 0 <= i < s.len() ==> #[trigger] s[i] != '\\'
}

/// Text without braces comes out of substitution exactly as it went in.
pub proof fn law_plain_text_unchanged(s: Seq<char>, b: Seq<(Seq<char>, Seq<char>)>)
    requires
        brace_free(s),
    ensures
        expand_spec(s, b, false) == s,
    decreases s.len(),
{
    if s.len() > 0 {
        let t = s.drop_first();
        assert(!is_brace(s[0]));
        assert forall|i: int| 0 <= i < t.len() implies !is_brace(#[trigger] t[i]) by {
            assert(t[i] == s[i + 1]);
        }
        law_plain_text_unchanged(t, b);
        assert(seq![s[0]] + t =~= s);
    }
}

/// A token with a binding becomes its value, inserted as it is: the value is
/// never scanned again, whatever braces it holds, and the scan goes on after
/// the closing brace.
pub proof fn law_bound_token_inserted_verbatim(
    tok: Seq<char>,
    rest: Seq<char>,
    b: Seq<(Seq<char>, Seq<char>)>,
    esc: bool,
)
    requires
        brace_free(tok),
        lookup(b, tok) is Some,
    ensures
        expand_spec(seq!['{'] + tok + seq!['}'] + rest, b, esc) == lookup(b, tok).unwrap()
            + expand_spec(rest, b, esc),
{
    lemma_token_step(tok, rest, b, esc);
}

/// A token without a binding is left exactly as typed rather than dropped.
pub proof fn law_unknown_token_kept(
    tok: Seq<char>,
    rest: Seq<char>,
    b: Seq<(Seq<char>, Seq<char>)>,
)
    requires
        brace_free(tok),
        lookup(b, tok) is None,
    ensures
        expand_spec(seq!['{'] + tok + seq!['}'] + rest, b, false) == seq!['{'] + tok + seq!['}']
            + expand_spec(rest, b, false),
{
    lemma_token_step(tok, rest, b, false);
    assert(seq!['{'] + tok + seq!['}'] + expand_spec(rest, b, false) =~= seq!['{'] + lits(
        tok,
        false,
    ) + seq!['}'] + expand_spec(rest, b, false));
}

/// A doubled brace is one literal brace.
pub proof fn law_doubled_brace(c: char, rest: Seq<char>, b: Seq<(Seq<char>, Seq<char>)>, esc: bool)
    requires
        is_brace(c),
    ensures
        expand_spec(seq![c, c] + rest, b, esc) == seq![c] + expand_spec(rest, b, esc),
{
    let s = seq![c, c] + rest;
    assert(s[0] == c && s[1] == c);
    assert(s.skip(2) =~= rest);
}

proof fn lemma_token_step(tok: Seq<char>, rest: Seq<char>, b: Seq<(Seq<char>, Seq<char>)>, esc: bool)
    requires
        brace_free(tok),
    ensures
        expand_spec(seq!['{'] + tok + seq!['}'] + rest, b, esc) == (match lookup(b, tok) {
            Some(v) => v,
            None => seq!['{'] + lits(tok, esc) + seq!['}'],
        }) + expand_spec(rest, b, esc),
{
    let s = seq!['{'] + tok + seq!['}'] + rest;
    let after = s.drop_first();
    assert(after =~= tok + seq!['}'] + rest);
    let k = tok.len() as int;
    assert forall|m: int| 0 <= m < k implies !is_brace(#[trigger] after[m]) by {
        assert(after[m] == tok[m]);
    }
    assert(after[k] == '}');
    lemma_first_brace(after, k);
    assert(s[0] == '{');
    assert(s.len() >= 2 ==> s[1] != s[0]) by {
        if s.len() >= 2 {
            if k > 0 {
                assert(s[1] == tok[0]);
                assert(!is_brace(tok[0]));
            } else {
                assert(s[1] == '}');
            }
        }
    }
    assert(after.take(k) =~= tok);
    assert(after.skip(k + 1) =~= rest);
}

/// Escaped text holds no angle bracket, so a copied tag stays text and can
/// never become markup.
pub proof fn law_escaped_text_has_no_tags(s: Seq<char>)
    ensures
        forall|i: int|
            0 <= i < escaped(s).len() ==> #[trigger] escaped(s)[i] != '<' && escaped(s)[i] != '>',
    decreases s.len(),
{
    if s.len() > 0 {
        let head = escape_char(s[0]);
        let rest = escaped(s.drop_first());
        law_escaped_text_has_no_tags(s.drop_first());
        assert forall|i: int| 0 <= i < head.len() implies head[i] != '<' && head[i] != '>' by {}
        assert forall|i: int|
            0 <= i < escaped(s).len() implies #[trigger] escaped(s)[i] != '<' && escaped(s)[i]
                != '>' by {
            if i < head.len() {
                assert(escaped(s)[i] == head[i]);
            } else {
                assert(escaped(s)[i] == rest[i - head.len()]);
            }
        }
    }
}

/// Text without a backslash has nothing to unescape.
pub proof fn law_unescape_plain_text(s: Seq<char>)
    requires
        backslash_free(s),
    ensures
        unescape_spec(s) == s,
    decreases s.len(),
{
    if s.len() > 0 {
        let t = s.drop_first();
        assert(s[0] != '\\');
        assert forall|i: int| 0 <= i < t.len() implies #[trigger] t[i] != '\\' by {
            assert(t[i] == s[i + 1]);
        }
        law_unescape_plain_text(t);
        assert(seq![s[0]] + t =~= s);
    }
}

/// Whether the scan of `s` meets the token `name`, as `expand_spec` reads
/// tokens: doubled braces and unclosed `{` open none.
pub open spec fn mentions(s: Seq<char>, name: Seq<char>) -> bool
    decreases s.len(),
{
    if s.len() == 0 {
        false
    } else if !is_brace(s[0]) {
        mentions(s.drop_first(), name)
    } else if s.len() >= 2 && s[1] == s[0] {
        mentions(s.skip(2), name)
    } else if s[0] == '}' {
        mentions(s.drop_first(), name)
    } else {
        let after = s.drop_first();
        let k = first_brace(after);
        if k < after.len() && after[k as int] == '}' {
            after.take(k as int) == name || mentions(after.skip(k + 1int), name)
        } else {
            mentions(after, name)
        }
    }
}

/// An expansion reads the bindings only through the tokens the text
/// mentions: bindings that agree on those give the same result.
pub proof fn law_unmentioned_tokens_unread(
    s: Seq<char>,
    b1: Seq<(Seq<char>, Seq<char>)>,
    b2: Seq<(Seq<char>, Seq<char>)>,
    esc: bool,
)
    requires
        forall|tok: Seq<char>| #[trigger] mentions(s, tok) ==> lookup(b1, tok) == lookup(b2, tok),
    ensures
        expand_spec(s, b1, esc) == expand_spec(s, b2, esc),
    decreases s.len(),
{
    if s.len() == 0 {
    } else if !is_brace(s[0]) {
        assert forall|tok: Seq<char>| #[trigger] mentions(s.drop_first(), tok) implies lookup(
            b1,
            tok,
        ) == lookup(b2, tok) by {
            assert(mentions(s, tok));
        }
        law_unmentioned_tokens_unread(s.drop_first(), b1, b2, esc);
    } else if s.len() >= 2 && s[1] == s[0] {
        assert forall|tok: Seq<char>| #[trigger] mentions(s.skip(2), tok) implies lookup(b1, tok)
            == lookup(b2, tok) by {
            assert(mentions(s, tok));
        }
        law_unmentioned_tokens_unread(s.skip(2), b1, b2, esc);
    } else if s[0] == '}' {
        assert forall|tok: Seq<char>| #[trigger] mentions(s.drop_first(), tok) implies lookup(
            b1,
            tok,
        ) == lookup(b2, tok) by {
            assert(mentions(s, tok));
        }
        law_unmentioned_tokens_unread(s.drop_first(), b1, b2, esc);
    } else {
        let after = s.drop_first();
        let k = first_brace(after);
        if k < after.len() && after[k as int] == '}' {
            let rest = after.skip(k + 1int);
            assert(mentions(s, after.take(k as int)));
            assert forall|tok: Seq<char>| #[trigger] mentions(rest, tok) implies lookup(b1, tok)
                == lookup(b2, tok) by {
                assert(mentions(s, tok));
            }
            law_unmentioned_tokens_unread(rest, b1, b2, esc);
        } else {
            assert forall|tok: Seq<char>| #[trigger] mentions(after, tok) implies lookup(b1, tok)
                == lookup(b2, tok) by {
                assert(mentions(s, tok));
            }
            law_unmentioned_tokens_unread(after, b1, b2, esc);
        }
    }
}

/// Two binding lists with the same names in the same order, and the same
/// value wherever the name is `tok`, look `tok` up alike.
pub(crate) proof fn lemma_lookup_agrees(
    b1: Seq<(Seq<char>, Seq<char>)>,
    b2: Seq<(Seq<char>, Seq<char>)>,
    tok: Seq<char>,
)
    requires
        b1.len() == b2.len(),
        forall|i: int|
            0 <= i < b1.len() ==> (#[trigger] b1[i]).0 == b2[i].0 && (b1[i].0 == tok ==> b1[i].1
                == b2[i].1),
    ensures
        lookup(b1, tok) == lookup(b2, tok),
    decreases b1.len(),
{
    if b1.len() > 0 {
        assert(b1[0].0 == b2[0].0);
        assert forall|i: int| 0 <= i < b1.drop_first().len() implies (#[trigger] b1.drop_first()[
            i
        ]).0 == b2.drop_first()[i].0 && (b1.drop_first()[i].0 == tok ==> b1.drop_first()[i].1
            == b2.drop_first()[i].1) by {
            assert(b1.drop_first()[i] == b1[i + 1]);
            assert(b2.drop_first()[i] == b2[i + 1]);
        }
        lemma_lookup_agrees(b1.drop_first(), b2.drop_first(), tok);
    }
}

proof fn lemma_unescape_plain_prefix(a: Seq<char>, rest: Seq<char>)
    requires
        backslash_free(a),
    ensures
        unescape_spec(a + rest) == a + unescape_spec(rest),
    decreases a.len(),
{
    if a.len() > 0 {
        let t = a.drop_first();
        assert(a[0] != '\\');
        assert forall|i: int| 0 <= i < t.len() implies #[trigger] t[i] != '\\' by {
            assert(t[i] == a[i + 1]);
        }
        lemma_unescape_plain_prefix(t, rest);
        assert((a + rest).drop_first() =~= t + rest);
        assert((a + rest)[0] == a[0]);
        assert(seq![a[0]] + (t + unescape_spec(rest)) =~= a + unescape_spec(rest));
    } else {
        assert(a + rest =~= rest);
        assert(a + unescape_spec(rest) =~= unescape_spec(rest));
    }
}

/// In a template field each two-character escape stands for one character:
/// `\n` a line feed, `\t` a tab, `\r` a carriage return, `\0` a NUL and
/// `\\` one backslash. Any other escape, and a lone backslash at the end, is
/// kept as typed, and the text around an escape is kept as it is.
pub proof fn law_escapes(a: Seq<char>, c: char, b: Seq<char>)
    requires
        backslash_free(a),
        backslash_free(b),
    ensures
        c == 'n' ==> unescape_spec(a + seq!['\\', c] + b) == a + seq!['\n'] + b,
        c == 't' ==> unescape_spec(a + seq!['\\', c] + b) == a + seq!['\t'] + b,
        c == 'r' ==> unescape_spec(a + seq!['\\', c] + b) == a + seq!['\r'] + b,
        c == '0' ==> unescape_spec(a + seq!['\\', c] + b) == a + seq!['\0'] + b,
        c == '\\' ==> unescape_spec(a + seq!['\\', c] + b) == a + seq!['\\'] + b,
        (c != 'n' && c != 't' && c != 'r' && c != '0' && c != '\\') ==> unescape_spec(
            a + seq!['\\', c] + b,
        ) == a + seq!['\\', c] + b,
        unescape_spec(a + seq!['\\']) == a + seq!['\\'],
{
    let e = seq!['\\', c] + b;
    assert(a + seq!['\\', c] + b =~= a + e);
    lemma_unescape_plain_prefix(a, e);
    law_unescape_plain_text(b);
    assert(e[0] == '\\' && e[1] == c);
    assert(e.skip(2) =~= b);
    lemma_unescape_plain_prefix(a, seq!['\\']);
    assert(seq!['\\'].len() == 1);
}

} // verus!
