//! Rendering the same stack as HTML, so a rich paste can carry the images.
//!
//! The template still drives the shape. Literal text from the template is
//! escaped, so a separator of `<hr>` appears as those four characters rather
//! than as a rule. Only an image fragment ever becomes markup.

use vstd::prelude::*;

use crate::b64::encoded;
use crate::clock::ClockReading;
use crate::expand::{
    binds_view, escape, escaped, expand, expand_spec, unescape_chars, unescape_spec, Bindings,
};
use crate::item::{kind_label, png_uri_prefix, ClipItem, ClipKind, ClipModel, KindModel};
use crate::template::{
    content_chars, content_spec, models, observe, observed, observed_fits, source_text, world_fits, ItemStamp, PathParts,
    RenderWorld, StampModel, Template, TemplateModel, WorldModel,
};
use crate::text::{chars_of, decimal, decimal_chars, join, join_chars, push_all, string_of, trim};

verus! {

/// The markup of a line break.
pub open spec fn br() -> Seq<char> {
    seq!['<', 'b', 'r', ' ', '/', '>']
}

/// Newlines turned into breaks: `\r\n` and `\n` each become one `<br />`.
pub open spec fn breaks_spec(s: Seq<char>) -> Seq<char>
    decreases s.len(),
{
    if s.len() == 0 {
        seq![]
    } else if s.len() >= 2 && s[0] == '\r' && s[1] == '\n' {
        br() + breaks_spec(s.skip(2))
    } else if s[0] == '\n' {
        br() + breaks_spec(s.drop_first())
    } else {
        seq![s[0]] + breaks_spec(s.drop_first())
    }
}

/// The `<img>` element for an image with a PNG; the placeholder text becomes
/// its alt text.
pub open spec fn img_tag(png: Seq<u8>, alt: Seq<char>, width: usize, height: usize) -> Seq<char> {
    "<img src=\""@ + png_uri_prefix() + encoded(png) + "\" alt=\""@ + escaped(alt) + "\" width=\""@
        + decimal(width as nat) + "\" height=\""@ + decimal(height as nat) + "\" />"@
}

/// What `{content}` stands for in HTML: escaped text with breaks, an image
/// element, or the escaped description when there is no PNG to show.
pub open spec fn content_html_spec(k: KindModel, t: TemplateModel, parts: Seq<
    crate::template::PartsModel,
>) -> Seq<char> {
    match k {
        KindModel::Text(text) => breaks_spec(
            escaped(
                if t.trim_items {
                    trim(text)
                } else {
                    text
                },
            ),
        ),
        KindModel::Image(image) => if image.png.len() > 0 {
            img_tag(image.png, content_spec(k, t, parts), image.width, image.height)
        } else {
            escaped(content_spec(k, t, parts))
        },
        KindModel::Files(_) => breaks_spec(escaped(content_spec(k, t, parts))),
    }
}

pub open spec fn html_item_binds(
    it: ClipModel,
    idx: nat,
    count: nat,
    t: TemplateModel,
    st: StampModel,
) -> Seq<(Seq<char>, Seq<char>)> {
    seq![
        ("content"@, content_html_spec(it.kind, t, st.files)),
        ("index"@, decimal(idx + 1)),
        ("index0"@, decimal(idx)),
        ("count"@, decimal(count)),
        ("kind"@, kind_label(it.kind)),
        ("source"@, escaped(source_text(it.source))),
        ("time"@, escaped(st.time)),
        ("date"@, escaped(st.date)),
    ]
}

pub open spec fn html_item(
    it: ClipModel,
    idx: nat,
    count: nat,
    t: TemplateModel,
    st: StampModel,
) -> Seq<char> {
    breaks_spec(
        expand_spec(unescape_spec(t.item_format), html_item_binds(it, idx, count, t, st), true),
    )
}

pub open spec fn html_bookend_binds(count: nat, w: WorldModel) -> Seq<(Seq<char>, Seq<char>)> {
    seq![
        ("count"@, escaped(decimal(count))),
        ("time"@, escaped(w.now_time)),
        ("date"@, escaped(w.now_date)),
    ]
}

pub open spec fn html_items(items: Seq<ClipModel>, t: TemplateModel, w: WorldModel) -> Seq<
    Seq<char>,
> {
    Seq::new(items.len(), |i: int| html_item(items[i], i as nat, items.len(), t, w.items[i]))
}

/// The whole fragment: a `div` holding prefix, items joined by the escaped
/// separator, and suffix, with newlines as breaks throughout.
pub open spec fn rendered_html(items: Seq<ClipModel>, t: TemplateModel, w: WorldModel) -> Seq<
    char,
> {
    let n = items.len();
    let b = html_bookend_binds(n, w);
    "<div>"@ + breaks_spec(expand_spec(unescape_spec(t.prefix), b, true)) + join(
        html_items(items, t, w),
        breaks_spec(escaped(unescape_spec(t.separator))),
    ) + breaks_spec(expand_spec(unescape_spec(t.suffix), b, true)) + "</div>"@
}

fn push_br(out: &mut Vec<char>)
    ensures
        final(out)@ == old(out)@ + br(),
{
    out.push('<');
    out.push('b');
    out.push('r');
    out.push(' ');
    out.push('/');
    out.push('>');
    proof {
        assert(out@ =~= old(out)@ + br());
    }
}

/// Newlines in `text` turned into `<br />`.
pub fn breaks(text: &[char]) -> (r: Vec<char>)
    ensures
        r@ == breaks_spec(text@),
{
    let n = text.len();
    let mut out: Vec<char> = Vec::new();
    let mut i: usize = 0;
    proof {
        assert(text@.skip(0) =~= text@);
        assert(Seq::<char>::empty() + breaks_spec(text@) =~= breaks_spec(text@));
    }
    while i < n
        invariant
            i <= n == text@.len(),
            breaks_spec(text@) == out@ + breaks_spec(text@.skip(i as int)),
        decreases n - i,
    {
        let ghost s = text@.skip(i as int);
        let ghost before = out@;
        let c = text[i];
        assert(s[0] == c);
        if c == '\r' && n - i > 1 && text[i + 1] == '\n' {
            push_br(&mut out);
            proof {
                assert(s[1] == text@[i + 1]);
                assert(s.skip(2) =~= text@.skip(i + 2));
                assert(before + (br() + breaks_spec(s.skip(2))) =~= out@ + breaks_spec(
                    text@.skip(i + 2),
                ));
            }
            i = i + 2;
        } else {
            if c == '\n' {
                push_br(&mut out);
            } else {
                out.push(c);
            }
            proof {
                if s.len() >= 2 {
                    assert(s[1] == text@[i + 1]);
                }
                assert(s.drop_first() =~= text@.skip(i + 1));
                let head = if c == '\n' {
                    br()
                } else {
                    seq![c]
                };
                assert(out@ =~= before + head);
                assert(before + (head + breaks_spec(s.drop_first())) =~= out@ + breaks_spec(
                    text@.skip(i + 1),
                ));
            }
            i = i + 1;
        }
    }
    proof {
        assert(text@.skip(n as int) =~= Seq::<char>::empty());
        assert(out@ + Seq::<char>::empty() =~= out@);
    }
    out
}

fn binding(name: &str, value: Vec<char>) -> (b: (Vec<char>, Vec<char>))
    ensures
        b.0@ == name@,
        b.1@ == value@,
{
    (chars_of(name), value)
}

/// What `{content}` stands for in HTML.
fn content_html(item: &ClipItem, t: &Template, parts: &[PathParts]) -> (r: Vec<char>)
    requires
        item@.kind matches KindModel::Files(paths) ==> parts@.len() == paths.len(),
    ensures
        r@ == content_html_spec(item@.kind, t@, parts@.map_values(|p: PathParts| p@)),
{
    let plain = content_chars(item, t, parts);
    match &item.kind {
        ClipKind::Text { text } => {
            let v = chars_of(text.as_str());
            let body = if t.trim_items {
                crate::text::trim_chars(v.as_slice())
            } else {
                v
            };
            breaks(escape(body.as_slice()).as_slice())
        },
        ClipKind::Image { image } => match image.data_uri() {
            Some(uri) => {
                let mut out = chars_of("<img src=\"");
                crate::text::push_str_chars(&mut out, uri.as_str());
                crate::text::push_str_chars(&mut out, "\" alt=\"");
                push_all(&mut out, escape(plain.as_slice()).as_slice());
                crate::text::push_str_chars(&mut out, "\" width=\"");
                push_all(&mut out, decimal_chars(image.width as u64).as_slice());
                crate::text::push_str_chars(&mut out, "\" height=\"");
                push_all(&mut out, decimal_chars(image.height as u64).as_slice());
                crate::text::push_str_chars(&mut out, "\" />");
                proof {
                    assert(out@ =~= img_tag(
                        image.png@,
                        plain@,
                        image.width,
                        image.height,
                    ));
                }
                out
            },
            None => escape(plain.as_slice()),
        },
        ClipKind::Files { .. } => breaks(escape(plain.as_slice()).as_slice()),
    }
}

fn html_item_bindings(item: &ClipItem, idx: usize, count: usize, t: &Template, st: &ItemStamp) -> (b:
    Bindings)
    requires
        item@.kind matches KindModel::Files(paths) ==> st@.files.len() == paths.len(),
        idx < count,
    ensures
        binds_view(b@) == html_item_binds(item@, idx as nat, count as nat, t@, st@),
{
    let mut b: Bindings = Vec::new();
    b.push(binding("content", content_html(item, t, st.files.as_slice())));
    b.push(binding("index", decimal_chars((idx + 1) as u64)));
    b.push(binding("index0", decimal_chars(idx as u64)));
    b.push(binding("count", decimal_chars(count as u64)));
    b.push(binding("kind", chars_of(item.kind.kind_name())));
    let source = match &item.source {
        Some(s) => chars_of(s.as_str()),
        None => Vec::new(),
    };
    proof {
        assert(source@ == source_text(item@.source));
    }
    b.push(binding("source", escape(source.as_slice())));
    b.push(binding("time", escape(st.time.as_slice())));
    b.push(binding("date", escape(st.date.as_slice())));
    proof {
        assert(binds_view(b@) =~= html_item_binds(item@, idx as nat, count as nat, t@, st@));
    }
    b
}

fn html_bookend_bindings(count: usize, w: &RenderWorld) -> (b: Bindings)
    ensures
        binds_view(b@) == html_bookend_binds(count as nat, w@),
{
    let mut b: Bindings = Vec::new();
    b.push(binding("count", escape(decimal_chars(count as u64).as_slice())));
    b.push(binding("time", escape(w.now_time.as_slice())));
    b.push(binding("date", escape(w.now_date.as_slice())));
    proof {
        assert(binds_view(b@) =~= html_bookend_binds(count as nat, w@));
    }
    b
}

/// Render a stack as an HTML fragment against what the clock and platform
/// said.
pub fn render_html_with(items: &[&ClipItem], t: &Template, w: &RenderWorld) -> (r: String)
    requires
        world_fits(w@, models(items@)),
    ensures
        r@ == rendered_html(models(items@), t@, w@),
{
    let n = items.len();
    let ghost ms = models(items@);
    let ghost all = html_items(ms, t@, w@);
    let item_fmt = unescape_chars(chars_of(t.item_format.as_str()).as_slice());
    let mut parts: Vec<Vec<char>> = Vec::new();
    let mut i: usize = 0;
    while i < n
        invariant
            i <= n == items@.len(),
            ms == models(items@),
            world_fits(w@, ms),
            all == html_items(ms, t@, w@),
            item_fmt@ == unescape_spec(t@.item_format),
            parts@.len() == i,
            forall|k: int| 0 <= k < i ==> (#[trigger] parts@[k])@ == all[k],
        decreases n - i,
    {
        proof {
            assert(ms[i as int] == items@[i as int]@);
            assert(w@.items[i as int] == w.items@[i as int]@);
            let _ = ms[i as int];
        }
        let b = html_item_bindings(items[i], i, n, t, &w.items[i]);
        let e = breaks(expand(item_fmt.as_slice(), b.as_slice(), true).as_slice());
        parts.push(e);
        i = i + 1;
    }
    let sep = breaks(escape(unescape_chars(chars_of(t.separator.as_str()).as_slice()).as_slice()).as_slice());
    let body = join_chars(parts.as_slice(), sep.as_slice());
    proof {
        assert(parts@.map_values(|p: Vec<char>| p@) =~= all);
    }
    let ends = html_bookend_bindings(n, w);
    let head = breaks(
        expand(unescape_chars(chars_of(t.prefix.as_str()).as_slice()).as_slice(), ends.as_slice(), true).as_slice(),
    );
    let tail = breaks(
        expand(unescape_chars(chars_of(t.suffix.as_str()).as_slice()).as_slice(), ends.as_slice(), true).as_slice(),
    );
    let mut out = chars_of("<div>");
    push_all(&mut out, head.as_slice());
    push_all(&mut out, body.as_slice());
    push_all(&mut out, tail.as_slice());
    crate::text::push_str_chars(&mut out, "</div>");
    string_of(out.as_slice())
}

/// Render a stack as an HTML fragment.
///
/// The fragment is exactly the rendering against what the clock reading and
/// the platform say.
pub fn render_html(items: &[&ClipItem], t: &Template, clock: &ClockReading) -> (r: String)
    ensures
        exists|w: WorldModel|
            observed(w, models(items@), t@, clock@) && r@ == rendered_html(models(items@), t@, w),
{
    let w = observe(items, t, clock);
    proof {
        observed_fits(w@, models(items@), t@, clock@);
    }
    render_html_with(items, t, &w)
}

/// A line ending gives exactly one break, whether it is `\r\n` or a bare
/// `\n`; text with no line ending passes through as it is, and breaking two
/// pieces is breaking each when the first does not end in `\r`.
pub proof fn law_line_endings(s: Seq<char>, a: Seq<char>, b: Seq<char>)
    ensures
        breaks_spec(seq!['\r', '\n'] + s) == br() + breaks_spec(s),
        breaks_spec(seq!['\n'] + s) == br() + breaks_spec(s),
        (forall|i: int| 0 <= i < s.len() ==> #[trigger] s[i] != '\n' && s[i] != '\r')
            ==> breaks_spec(s) == s,
        (a.len() == 0 || a.last() != '\r') ==> breaks_spec(a + b) == breaks_spec(a)
            + breaks_spec(b),
{
    let t = seq!['\r', '\n'] + s;
    assert(t.skip(2) =~= s);
    let u = seq!['\n'] + s;
    assert(u.drop_first() =~= s);
    if forall|i: int| 0 <= i < s.len() ==> #[trigger] s[i] != '\n' && s[i] != '\r' {
        lemma_breaks_plain(s);
    }
    if a.len() == 0 || a.last() != '\r' {
        lemma_breaks_split(a, b);
    }
}

proof fn lemma_breaks_plain(s: Seq<char>)
    requires
        forall|i: int| 0 <= i < s.len() ==> #[trigger] s[i] != '\n' && s[i] != '\r',
    ensures
        breaks_spec(s) == s,
    decreases s.len(),
{
    if s.len() > 0 {
        let t = s.drop_first();
        assert(s[0] != '\n' && s[0] != '\r');
        assert forall|i: int| 0 <= i < t.len() implies #[trigger] t[i] != '\n' && t[i] != '\r' by {
            assert(t[i] == s[i + 1]);
        }
        lemma_breaks_plain(t);
        assert(seq![s[0]] + t =~= s);
    }
}

proof fn lemma_breaks_split(a: Seq<char>, b: Seq<char>)
    requires
        a.len() == 0 || a.last() != '\r',
    ensures
        breaks_spec(a + b) == breaks_spec(a) + breaks_spec(b),
    decreases a.len(),
{
    if a.len() == 0 {
        assert(a + b =~= b);
        assert(breaks_spec(a) + breaks_spec(b) =~= breaks_spec(b));
    } else if a.len() >= 2 && a[0] == '\r' && a[1] == '\n' {
        let t = a.skip(2);
        assert((a + b).skip(2) =~= t + b);
        assert((a + b)[0] == a[0] && (a + b)[1] == a[1]);
        if t.len() > 0 {
            assert(t.last() == a.last());
        }
        lemma_breaks_split(t, b);
        assert(br() + (breaks_spec(t) + breaks_spec(b)) =~= (br() + breaks_spec(t)) + breaks_spec(b));
    } else {
        let t = a.drop_first();
        assert((a + b).drop_first() =~= t + b);
        assert((a + b)[0] == a[0]);
        if t.len() > 0 {
            assert(t.last() == a.last());
            assert((a + b)[1] == a[1]);
        } else {
            assert(a[0] != '\r');
        }
        lemma_breaks_split(t, b);
        if a[0] == '\n' {
            assert(br() + (breaks_spec(t) + breaks_spec(b)) =~= (br() + breaks_spec(t)) + breaks_spec(b));
        } else {
            assert(seq![a[0]] + (breaks_spec(t) + breaks_spec(b)) =~= (seq![a[0]] + breaks_spec(t))
                + breaks_spec(b));
        }
    }
}

} // verus!
