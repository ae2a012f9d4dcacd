//! Turning a stack of captures into the one block that gets pasted.
//!
//! The format is a template rather than a fixed join. Templates are plain
//! strings with `{token}` placeholders; an unknown token is left alone rather
//! than dropped, because silently eating text the user typed is worse than
//! showing it back.

use vstd::prelude::*;

use crate::clock::{
    find_offset, offset_for, zoned_text, zoned_text_of, ClockModel, ClockReading, ZonedInstant,
};
use crate::expand::{
    backslash_free, binds_view, brace_free, expand, expand_spec, law_bound_token_inserted_verbatim,
    law_unescape_plain_text, law_unmentioned_tokens_unread, lemma_lookup_agrees, lookup, mentions,
    unescape_chars, unescape_pair, unescape_spec, Bindings,
};
use crate::item::{kind_label, ClipItem, ClipKind, ClipModel, KindModel, strings_view};
use crate::paths::{self, extension_of, file_name_of, file_stem_of, parent_of};
use crate::text::{
    chars_of, copy_range, decimal, decimal_chars, join, join_chars, push_all, string_of, trim,
    trim_chars,
};

verus! {

/// How a session renders. Every field is user-editable.
#[derive(Clone, Debug, PartialEq, Eq)]
pub struct Template {
    /// Emitted once before the first item. Tokens: `{count}`, `{time}`, `{date}`.
    pub prefix: String,
    /// Emitted once per item. Tokens: `{content}`, `{index}`, `{index0}`,
    /// `{count}`, `{source}`, `{kind}`, `{time}`, `{date}`.
    pub item_format: String,
    /// Placed between items. Escapes `\n`, `\t`, `\r` are honoured.
    pub separator: String,
    /// Emitted once after the last item. Same tokens as `prefix`.
    pub suffix: String,
    /// Trim whitespace off each text fragment before it is placed.
    pub trim_items: bool,
    /// Stand-in for an image capture. Tokens: `{width}`, `{height}`.
    pub image_format: String,
    /// Rendering of one path in a file capture. Tokens: `{path}`, `{name}`,
    /// `{stem}`, `{ext}`, `{dir}`.
    pub file_format: String,
    /// Placed between paths inside a single file capture.
    pub file_separator: String,
    /// strftime pattern behind `{time}`.
    pub time_format: String,
    /// strftime pattern behind `{date}`.
    pub date_format: String,
}

/// A template, as values.
#[verifier::ext_equal]
pub struct TemplateModel {
    pub prefix: Seq<char>,
    pub item_format: Seq<char>,
    pub separator: Seq<char>,
    pub suffix: Seq<char>,
    pub trim_items: bool,
    pub image_format: Seq<char>,
    pub file_format: Seq<char>,
    pub file_separator: Seq<char>,
    pub time_format: Seq<char>,
    pub date_format: Seq<char>,
}

impl View for Template {
    type V = TemplateModel;

    open spec fn view(&self) -> TemplateModel {
        TemplateModel {
            prefix: self.prefix@,
            item_format: self.item_format@,
            separator: self.separator@,
            suffix: self.suffix@,
            trim_items: self.trim_items,
            image_format: self.image_format@,
            file_format: self.file_format@,
            file_separator: self.file_separator@,
            time_format: self.time_format@,
            date_format: self.date_format@,
        }
    }
}

/// The default template: one fragment per line, trimmed.
pub open spec fn default_template() -> TemplateModel {
    TemplateModel {
        prefix: seq![],
        item_format: "{content}"@,
        separator: "\\n"@,
        suffix: seq![],
        trim_items: true,
        image_format: "[image {width}x{height}]"@,
        file_format: "{path}"@,
        file_separator: "\\n"@,
        time_format: "%H:%M:%S"@,
        date_format: "%Y-%m-%d"@,
    }
}

impl Default for Template {
    fn default() -> (t: Self)
        ensures
            t@ == default_template(),
    {
        let t = Template {
            prefix: String::new(),
            item_format: "{content}".to_owned(),
            separator: "\\n".to_owned(),
            suffix: String::new(),
            trim_items: true,
            image_format: "[image {width}x{height}]".to_owned(),
            file_format: "{path}".to_owned(),
            file_separator: "\\n".to_owned(),
            time_format: "%H:%M:%S".to_owned(),
            date_format: "%Y-%m-%d".to_owned(),
        };
        proof {
            assert(t@ =~= default_template());
        }
        t
    }
}

/// A named starting point offered in the settings pane.
#[derive(Clone, Debug)]
pub struct Preset {
    pub id: String,
    pub label: String,
    pub description: String,
    pub template: Template,
}

/// What the presets are: identifier, label, description and template.
pub open spec fn preset_table() -> Seq<(Seq<char>, Seq<char>, Seq<char>, TemplateModel)> {
    let base = default_template();
    seq![
        ("lines"@, "One per line"@, "Fragments joined by a single newline."@, base),
        (
            "paragraphs"@,
            "Blank line between"@,
            "For multi-line snippets that need to breathe."@,
            TemplateModel { separator: "\\n\\n"@, ..base },
        ),
        (
            "numbered"@,
            "Numbered list"@,
            "1. first, 2. second, and so on."@,
            TemplateModel { item_format: "{index}. {content}"@, ..base },
        ),
        (
            "bullets"@,
            "Markdown bullets"@,
            "A dash in front of every fragment."@,
            TemplateModel { item_format: "- {content}"@, ..base },
        ),
        (
            "sourced"@,
            "With source and time"@,
            "Each fragment labelled with where and when it came from."@,
            TemplateModel {
                item_format: "[{index}] {source} at {time}\\n{content}"@,
                separator: "\\n\\n"@,
                ..base
            },
        ),
        (
            "csv_cells"@,
            "Comma separated"@,
            "Fragments on one line, joined by a comma."@,
            TemplateModel { separator: ", "@, ..base },
        ),
        (
            "markdown_quote"@,
            "Markdown quote block"@,
            "Whole stack wrapped in a fenced block."@,
            TemplateModel { prefix: "```\\n"@, suffix: "\\n```"@, separator: "\\n"@, ..base },
        ),
    ]
}

fn preset(id: &str, label: &str, description: &str, template: Template) -> (p: Preset)
    ensures
        p.id@ == id@,
        p.label@ == label@,
        p.description@ == description@,
        p.template@ == template@,
{
    Preset {
        id: id.to_owned(),
        label: label.to_owned(),
        description: description.to_owned(),
        template,
    }
}

/// The presets offered in the settings pane.
pub fn presets() -> (r: Vec<Preset>)
    ensures
        r@.len() == preset_table().len(),
        forall|i: int|
            0 <= i < r@.len() ==> {
                let e = #[trigger] preset_table()[i];
                &&& r@[i].id@ == e.0
                &&& r@[i].label@ == e.1
                &&& r@[i].description@ == e.2
                &&& r@[i].template@ == e.3
            },
{
    let mut r: Vec<Preset> = Vec::new();
    r.push(
        preset(
            "lines",
            "One per line",
            "Fragments joined by a single newline.",
            Template::default(),
        ),
    );
    let mut t = Template::default();
    t.separator = "\\n\\n".to_owned();
    r.push(
        preset(
            "paragraphs",
            "Blank line between",
            "For multi-line snippets that need to breathe.",
            t,
        ),
    );
    let mut t = Template::default();
    t.item_format = "{index}. {content}".to_owned();
    r.push(preset("numbered", "Numbered list", "1. first, 2. second, and so on.", t));
    let mut t = Template::default();
    t.item_format = "- {content}".to_owned();
    r.push(preset("bullets", "Markdown bullets", "A dash in front of every fragment.", t));
    let mut t = Template::default();
    t.item_format = "[{index}] {source} at {time}\\n{content}".to_owned();
    t.separator = "\\n\\n".to_owned();
    r.push(
        preset(
            "sourced",
            "With source and time",
            "Each fragment labelled with where and when it came from.",
            t,
        ),
    );
    let mut t = Template::default();
    t.separator = ", ".to_owned();
    r.push(preset("csv_cells", "Comma separated", "Fragments on one line, joined by a comma.", t));
    let mut t = Template::default();
    t.prefix = "```\\n".to_owned();
    t.suffix = "\\n```".to_owned();
    t.separator = "\\n".to_owned();
    r.push(
        preset("markdown_quote", "Markdown quote block", "Whole stack wrapped in a fenced block.", t),
    );
    proof {
        let tab = preset_table();
        assert forall|i: int| 0 <= i < r@.len() implies {
            let e = #[trigger] preset_table()[i];
            &&& r@[i].id@ == e.0
            &&& r@[i].label@ == e.1
            &&& r@[i].description@ == e.2
            &&& r@[i].template@ == e.3
        } by {
            let m = r@[i].template@;
            if i == 0 {
                assert(m =~= tab[0].3);
            } else if i == 1 {
                assert(m =~= tab[1].3);
            } else if i == 2 {
                assert(m =~= tab[2].3);
            } else if i == 3 {
                assert(m =~= tab[3].3);
            } else if i == 4 {
                assert(m =~= tab[4].3);
            } else if i == 5 {
                assert(m =~= tab[5].3);
            } else {
                assert(m =~= tab[6].3);
            }
        }
    }
    r
}

/// What the platform says of one path: its file name, stem, extension and
/// parent directory, each empty when the path has none.
pub struct PathParts {
    pub name: Vec<char>,
    pub stem: Vec<char>,
    pub ext: Vec<char>,
    pub dir: Vec<char>,
}

/// What the clock and the platform said for one fragment: the instant it is
/// stamped with, that instant written with the time and date patterns, and
/// the parts of each path.
pub struct ItemStamp {
    pub at: ZonedInstant,
    pub time: Vec<char>,
    pub date: Vec<char>,
    pub files: Vec<PathParts>,
}

/// Everything a render needs from outside the model: the current instant,
/// written in both patterns, and a stamp for each fragment.
pub struct RenderWorld {
    pub now: ZonedInstant,
    pub now_time: Vec<char>,
    pub now_date: Vec<char>,
    pub items: Vec<ItemStamp>,
}

#[verifier::ext_equal]
pub struct PartsModel {
    pub name: Seq<char>,
    pub stem: Seq<char>,
    pub ext: Seq<char>,
    pub dir: Seq<char>,
}

#[verifier::ext_equal]
pub struct StampModel {
    pub at: ZonedInstant,
    pub time: Seq<char>,
    pub date: Seq<char>,
    pub files: Seq<PartsModel>,
}

#[verifier::ext_equal]
pub struct WorldModel {
    pub now: ZonedInstant,
    pub now_time: Seq<char>,
    pub now_date: Seq<char>,
    pub items: Seq<StampModel>,
}

impl View for PathParts {
    type V = PartsModel;

    open spec fn view(&self) -> PartsModel {
        PartsModel { name: self.name@, stem: self.stem@, ext: self.ext@, dir: self.dir@ }
    }
}

impl View for ItemStamp {
    type V = StampModel;

    open spec fn view(&self) -> StampModel {
        StampModel {
            at: self.at,
            time: self.time@,
            date: self.date@,
            files: self.files@.map_values(|p: PathParts| p@),
        }
    }
}

impl View for RenderWorld {
    type V = WorldModel;

    open spec fn view(&self) -> WorldModel {
        WorldModel {
            now: self.now,
            now_time: self.now_time@,
            now_date: self.now_date@,
            items: self.items@.map_values(|s: ItemStamp| s@),
        }
    }
}

/// The fragments behind a list of references.
pub open spec fn models(items: Seq<&ClipItem>) -> Seq<ClipModel> {
    items.map_values(|r: &ClipItem| r@)
}

/// A world has a stamp for every fragment, and parts for every path.
pub open spec fn world_fits(w: WorldModel, items: Seq<ClipModel>) -> bool {
    &&& w.items.len() == items.len()
    &&& forall|i: int|
        0 <= i < items.len() ==> match (#[trigger] items[i]).kind {
            KindModel::Files(paths) => w.items[i].files.len() == paths.len(),
            _ => true,
        }
}

/// The text of an optional text, empty when there is none.
pub open spec fn or_empty(s: Option<Seq<char>>) -> Seq<char> {
    match s {
        Some(v) => v,
        None => seq![],
    }
}

/// What the platform says of a path: its file name, stem, extension and
/// parent, each empty when the path has none.
pub open spec fn parts_of(path: Seq<char>) -> PartsModel {
    PartsModel {
        name: or_empty(file_name_of(path)),
        stem: or_empty(file_stem_of(path)),
        ext: or_empty(extension_of(path)),
        dir: or_empty(parent_of(path)),
    }
}

/// An instant written with a strftime pattern at its own offset, empty when
/// chrono cannot write it.
pub open spec fn zoned(at: ZonedInstant, pattern: Seq<char>) -> Seq<char> {
    or_empty(zoned_text_of(at.secs, at.nanos, at.offset, pattern))
}

/// A capture time in milliseconds as chrono reads it: the count taken as a
/// signed 64-bit number and split into whole seconds and nanoseconds, the
/// seconds rounded toward negative infinity.
pub open spec fn capture_instant(ms: u64) -> (i64, u32) {
    let m: int = if ms <= i64::MAX {
        ms as int
    } else {
        ms - 0x1_0000_0000_0000_0000int
    };
    ((m / 1000) as i64, ((m % 1000) * 1_000_000) as u32)
}

/// The instant a fragment is stamped with: its capture time at the local
/// offset the reading gives for it, or the current instant when the zone
/// could not place that time.
pub open spec fn stamp_instant(it: ClipModel, clock: ClockModel) -> ZonedInstant {
    let c = capture_instant(it.captured_at_ms);
    match offset_for(clock.offsets, it.captured_at_ms) {
        Some(o) => ZonedInstant { secs: c.0, nanos: c.1, offset: o },
        None => clock.now,
    }
}

/// A fragment's stamp is what the reading and the platform say of it: its
/// instant, both texts written from that instant with the template's
/// patterns, and the parts of each path (a fragment that is not a file list
/// has none).
pub open spec fn stamp_observed(
    st: StampModel,
    it: ClipModel,
    t: TemplateModel,
    clock: ClockModel,
) -> bool {
    &&& st.at == stamp_instant(it, clock)
    &&& st.time == zoned(st.at, t.time_format)
    &&& st.date == zoned(st.at, t.date_format)
    &&& match it.kind {
        KindModel::Files(paths) => st.files.len() == paths.len() && forall|j: int|
            0 <= j < paths.len() ==> #[trigger] st.files[j] == parts_of(paths[j]),
        _ => st.files.len() == 0,
    }
}

/// A world is what a render of `items` with `t` learns from a clock reading
/// and the platform: the current instant written in both patterns for the
/// prefix and suffix, and an observed stamp for each fragment.
pub open spec fn observed(
    w: WorldModel,
    items: Seq<ClipModel>,
    t: TemplateModel,
    clock: ClockModel,
) -> bool {
    &&& w.items.len() == items.len()
    &&& w.now == clock.now
    &&& w.now_time == zoned(w.now, t.time_format)
    &&& w.now_date == zoned(w.now, t.date_format)
    &&& forall|i: int|
        0 <= i < items.len() ==> stamp_observed(#[trigger] w.items[i], items[i], t, clock)
}

/// An observed world fits the fragments it was observed for.
pub(crate) proof fn observed_fits(
    w: WorldModel,
    items: Seq<ClipModel>,
    t: TemplateModel,
    clock: ClockModel,
)
    requires
        observed(w, items, t, clock),
    ensures
        world_fits(w, items),
{
    assert forall|i: int| 0 <= i < items.len() implies match (#[trigger] items[i]).kind {
        KindModel::Files(paths) => w.items[i].files.len() == paths.len(),
        _ => true,
    } by {
        assert(stamp_observed(w.items[i], items[i], t, clock));
    }
}

pub open spec fn image_binds(width: usize, height: usize) -> Seq<(Seq<char>, Seq<char>)> {
    seq![("width"@, decimal(width as nat)), ("height"@, decimal(height as nat))]
}

pub open spec fn file_binds(path: Seq<char>, p: PartsModel) -> Seq<(Seq<char>, Seq<char>)> {
    seq![("path"@, path), ("name"@, p.name), ("stem"@, p.stem), ("ext"@, p.ext), ("dir"@, p.dir)]
}

/// Each path of a file capture written with the file format.
pub open spec fn file_texts(paths: Seq<Seq<char>>, parts: Seq<PartsModel>, fmt: Seq<char>) -> Seq<
    Seq<char>,
> {
    Seq::new(paths.len(), |i: int| expand_spec(fmt, file_binds(paths[i], parts[i]), false))
}

/// What `{content}` stands for: the text (trimmed when the template says
/// so), the image placeholder, or every path written with the file format.
pub open spec fn content_spec(k: KindModel, t: TemplateModel, parts: Seq<PartsModel>) -> Seq<char> {
    match k {
        KindModel::Text(text) => if t.trim_items {
            trim(text)
        } else {
            text
        },
        KindModel::Image(image) => expand_spec(
            unescape_spec(t.image_format),
            image_binds(image.width, image.height),
            false,
        ),
        KindModel::Files(paths) => join(
            file_texts(paths, parts, unescape_spec(t.file_format)),
            unescape_spec(t.file_separator),
        ),
    }
}

/// The source of a fragment, empty when unknown.
pub open spec fn source_text(s: Option<Seq<char>>) -> Seq<char> {
    match s {
        Some(v) => v,
        None => seq![],
    }
}

/// The tokens of one item: `{index}` counts from one, `{index0}` from zero.
pub open spec fn item_binds(
    it: ClipModel,
    idx: nat,
    count: nat,
    t: TemplateModel,
    st: StampModel,
) -> Seq<(Seq<char>, Seq<char>)> {
    seq![
        ("content"@, content_spec(it.kind, t, st.files)),
        ("index"@, decimal(idx + 1)),
        ("index0"@, decimal(idx)),
        ("count"@, decimal(count)),
        ("kind"@, kind_label(it.kind)),
        ("source"@, source_text(it.source)),
        ("time"@, st.time),
        ("date"@, st.date),
    ]
}

/// One item written with the item format.
pub open spec fn rendered_item(
    it: ClipModel,
    idx: nat,
    count: nat,
    t: TemplateModel,
    st: StampModel,
) -> Seq<char> {
    expand_spec(unescape_spec(t.item_format), item_binds(it, idx, count, t, st), false)
}

/// The tokens of the prefix and suffix.
pub open spec fn bookend_binds(count: nat, w: WorldModel) -> Seq<(Seq<char>, Seq<char>)> {
    seq![("count"@, decimal(count)), ("time"@, w.now_time), ("date"@, w.now_date)]
}

/// Every item written with the item format.
pub open spec fn rendered_items(items: Seq<ClipModel>, t: TemplateModel, w: WorldModel) -> Seq<
    Seq<char>,
> {
    Seq::new(
        items.len(),
        |i: int| rendered_item(items[i], i as nat, items.len(), t, w.items[i]),
    )
}

/// The whole block: prefix, the items joined by the separator, suffix.
pub open spec fn rendered(items: Seq<ClipModel>, t: TemplateModel, w: WorldModel) -> Seq<char> {
    let n = items.len();
    expand_spec(unescape_spec(t.prefix), bookend_binds(n, w), false) + join(
        rendered_items(items, t, w),
        unescape_spec(t.separator),
    ) + expand_spec(unescape_spec(t.suffix), bookend_binds(n, w), false)
}

/// Two renders of the same fragments with the same template differ only by
/// what the clock and the time zone said: worlds observed from readings that
/// give the same instants, for the prefix and suffix and for each fragment,
/// give the same block.
pub proof fn law_render_depends_only_on_instants(
    items: Seq<ClipModel>,
    t: TemplateModel,
    w1: WorldModel,
    w2: WorldModel,
    c1: ClockModel,
    c2: ClockModel,
)
    requires
        observed(w1, items, t, c1),
        observed(w2, items, t, c2),
        w1.now == w2.now,
        forall|i: int| 0 <= i < items.len() ==> (#[trigger] w1.items[i]).at == w2.items[i].at,
    ensures
        w1 == w2,
        rendered(items, t, w1) == rendered(items, t, w2),
{
    assert forall|i: int| 0 <= i < items.len() implies #[trigger] w1.items[i] == w2.items[i] by {
        let a = w1.items[i];
        let b = w2.items[i];
        assert(stamp_observed(a, items[i], t, c1));
        assert(stamp_observed(b, items[i], t, c2));
        match items[i].kind {
            KindModel::Files(paths) => {
                assert(a.files =~= b.files);
            },
            _ => {
                assert(a.files =~= b.files);
            },
        }
        assert(a =~= b);
    }
    assert(w1.items =~= w2.items);
    assert(w1 =~= w2);
}

/// A template that shows no clock reading: no `{time}` or `{date}` in its
/// prefix, item format or suffix.
pub open spec fn clockless(t: TemplateModel) -> bool {
    &&& !mentions(unescape_spec(t.prefix), "time"@)
    &&& !mentions(unescape_spec(t.prefix), "date"@)
    &&& !mentions(unescape_spec(t.item_format), "time"@)
    &&& !mentions(unescape_spec(t.item_format), "date"@)
    &&& !mentions(unescape_spec(t.suffix), "time"@)
    &&& !mentions(unescape_spec(t.suffix), "date"@)
}

/// A template that shows no clock reading renders the same fragments to the
/// same block every time: whatever the clock said, the block does not change.
pub proof fn law_clockless_render_is_stable(
    items: Seq<ClipModel>,
    t: TemplateModel,
    w1: WorldModel,
    w2: WorldModel,
    c1: ClockModel,
    c2: ClockModel,
)
    requires
        observed(w1, items, t, c1),
        observed(w2, items, t, c2),
        clockless(t),
    ensures
        rendered(items, t, w1) == rendered(items, t, w2),
{
    let n = items.len();
    let e1 = bookend_binds(n, w1);
    let e2 = bookend_binds(n, w2);
    assert forall|tok: Seq<char>| tok != "time"@ && tok != "date"@ implies #[trigger] lookup(e1, tok)
        == lookup(e2, tok) by {
        lemma_lookup_agrees(e1, e2, tok);
    }
    let pre = unescape_spec(t.prefix);
    let suf = unescape_spec(t.suffix);
    let fmt = unescape_spec(t.item_format);
    assert forall|tok: Seq<char>| #[trigger] mentions(pre, tok) implies lookup(e1, tok) == lookup(
        e2,
        tok,
    ) by {
        assert(tok != "time"@ && tok != "date"@);
    }
    law_unmentioned_tokens_unread(pre, e1, e2, false);
    assert forall|tok: Seq<char>| #[trigger] mentions(suf, tok) implies lookup(e1, tok) == lookup(
        e2,
        tok,
    ) by {
        assert(tok != "time"@ && tok != "date"@);
    }
    law_unmentioned_tokens_unread(suf, e1, e2, false);
    let r1 = rendered_items(items, t, w1);
    let r2 = rendered_items(items, t, w2);
    assert forall|i: int| 0 <= i < n implies #[trigger] r1[i] == r2[i] by {
        let s1 = w1.items[i];
        let s2 = w2.items[i];
        assert(stamp_observed(s1, items[i], t, c1));
        assert(stamp_observed(s2, items[i], t, c2));
        assert(s1.files =~= s2.files);
        let b1 = item_binds(items[i], i as nat, n, t, s1);
        let b2 = item_binds(items[i], i as nat, n, t, s2);
        assert forall|tok: Seq<char>| #[trigger] mentions(fmt, tok) implies lookup(b1, tok)
            == lookup(b2, tok) by {
            assert(tok != "time"@ && tok != "date"@);
            lemma_lookup_agrees(b1, b2, tok);
        }
        law_unmentioned_tokens_unread(fmt, b1, b2, false);
    }
    assert(r1 =~= r2);
}

/// With the default template a stack of texts pastes one fragment per line:
/// each text trimmed, joined by line feeds, with nothing before the first or
/// after the last, whatever the clock said.
pub proof fn law_default_template_one_per_line(
    items: Seq<ClipModel>,
    texts: Seq<Seq<char>>,
    w: WorldModel,
)
    requires
        items.len() == texts.len(),
        w.items.len() == items.len(),
        forall|i: int| 0 <= i < items.len() ==> (#[trigger] items[i]).kind == KindModel::Text(texts[i]),
    ensures
        rendered(items, default_template(), w) == join(
            texts.map_values(|x: Seq<char>| trim(x)),
            seq!['\n'],
        ),
{
    reveal_strlit("{content}");
    reveal_strlit("\\n");
    let t = default_template();
    let fmt = "{content}"@;
    let tok = "content"@;
    reveal_strlit("content");
    assert(fmt =~= seq!['{'] + tok + seq!['}'] + Seq::<char>::empty());
    assert(backslash_free(fmt));
    law_unescape_plain_text(fmt);
    assert(brace_free(tok));
    let sep = "\\n"@;
    assert(sep.len() == 2 && sep[0] == '\\' && sep[1] == 'n');
    assert(sep.skip(2) =~= Seq::<char>::empty());
    assert(unescape_spec(sep.skip(2)) =~= Seq::<char>::empty());
    assert(unescape_spec(sep) == unescape_pair(sep[1]) + unescape_spec(sep.skip(2)));
    assert(unescape_spec(sep) =~= seq!['\n']);
    let n = items.len();
    let all = rendered_items(items, t, w);
    let want = texts.map_values(|x: Seq<char>| trim(x));
    assert forall|i: int| 0 <= i < n implies #[trigger] all[i] == want[i] by {
        let b = item_binds(items[i], i as nat, n, t, w.items[i]);
        assert(lookup(b, tok) == Some(content_spec(items[i].kind, t, w.items[i].files)));
        law_bound_token_inserted_verbatim(tok, Seq::<char>::empty(), b, false);
        assert(content_spec(items[i].kind, t, w.items[i].files) == trim(texts[i]));
    }
    assert(all =~= want);
    assert(unescape_spec(Seq::<char>::empty()) =~= Seq::<char>::empty());
    assert(expand_spec(Seq::<char>::empty(), bookend_binds(n, w), false) =~= Seq::<char>::empty());
    let body = join(all, unescape_spec(t.separator));
    assert(Seq::<char>::empty() + body + Seq::<char>::empty() =~= body);
}

fn binding(name: &str, value: Vec<char>) -> (b: (Vec<char>, Vec<char>))
    ensures
        b.0@ == name@,
        b.1@ == value@,
{
    (chars_of(name), value)
}

/// A capture time in milliseconds split as chrono splits it.
fn capture_instant_of(ms: u64) -> (r: (i64, u32))
    ensures
        r == capture_instant(ms),
{
    if ms <= 0x7fff_ffff_ffff_ffffu64 {
        let rem: u64 = ms % 1000;
        ((ms / 1000) as i64, (rem * 1_000_000) as u32)
    } else {
        let neg: u64 = (u64::MAX - ms) + 1;
        let q: u64 = (neg + 999) / 1000;
        assert(q * 1000 >= neg && q * 1000 - neg < 1000 && q * 1000 <= neg + 999) by (nonlinear_arith)
            requires
                q == (neg + 999) / 1000,
                neg >= 1,
        ;
        let rem: u64 = q * 1000 - neg;
        proof {
            let m: int = ms - 0x1_0000_0000_0000_0000int;
            assert(m == (-(q as int)) * 1000 + rem);
            vstd::arithmetic::div_mod::lemma_fundamental_div_mod_converse(
                m,
                1000,
                -(q as int),
                rem as int,
            );
        }
        (-(q as i64), (rem * 1_000_000) as u32)
    }
}

/// The instant a fragment is stamped with, from a clock reading.
fn stamp_at(ms: u64, clock: &ClockReading) -> (at: ZonedInstant)
    ensures
        ({
            let c = capture_instant(ms);
            at == match offset_for(clock@.offsets, ms) {
                Some(o) => ZonedInstant { secs: c.0, nanos: c.1, offset: o },
                None => clock.now,
            }
        }),
{
    let (secs, nanos) = capture_instant_of(ms);
    match find_offset(clock, ms) {
        Some(offset) => ZonedInstant { secs, nanos, offset },
        None => clock.now,
    }
}

/// An instant written with a pattern, as characters.
fn zoned_chars(at: ZonedInstant, pattern: &str) -> (r: Vec<char>)
    ensures
        r@ == zoned(at, pattern@),
{
    text_or_empty(zoned_text(at.secs, at.nanos, at.offset, pattern))
}

/// What the platform says of a path.
fn path_parts(path: &str) -> (r: PathParts)
    ensures
        r@ == parts_of(path@),
{
    let r = PathParts {
        name: text_or_empty(paths::file_name(path)),
        stem: text_or_empty(paths::file_stem(path)),
        ext: text_or_empty(paths::extension(path)),
        dir: text_or_empty(paths::parent(path)),
    };
    proof {
        assert(r@ =~= parts_of(path@));
    }
    r
}

/// Work out from a clock reading, and ask the platform, what a render of
/// `items` needs.
pub fn observe(items: &[&ClipItem], t: &Template, clock: &ClockReading) -> (w: RenderWorld)
    ensures
        observed(w@, models(items@), t@, clock@),
{
    let now = clock.now;
    let now_time = zoned_chars(now, t.time_format.as_str());
    let now_date = zoned_chars(now, t.date_format.as_str());
    let mut stamps: Vec<ItemStamp> = Vec::new();
    let mut i: usize = 0;
    while i < items.len()
        invariant
            i <= items@.len(),
            stamps@.len() == i,
            forall|k: int|
                0 <= k < i ==> stamp_observed(#[trigger] stamps@[k]@, items@[k]@, t@, clock@),
        decreases items.len() - i,
    {
        let item = items[i];
        let at = stamp_at(item.captured_at_ms, clock);
        let time = zoned_chars(at, t.time_format.as_str());
        let date = zoned_chars(at, t.date_format.as_str());
        let mut files: Vec<PathParts> = Vec::new();
        match &item.kind {
            ClipKind::Files { paths } => {
                let mut j: usize = 0;
                while j < paths.len()
                    invariant
                        j <= paths@.len(),
                        files@.len() == j,
                        forall|k: int|
                            0 <= k < j ==> (#[trigger] files@[k])@ == parts_of(paths@[k]@),
                    decreases paths.len() - j,
                {
                    files.push(path_parts(paths[j].as_str()));
                    j = j + 1;
                }
            },
            _ => {},
        }
        let st = ItemStamp { at, time, date, files };
        proof {
            let sv = st@;
            match item@.kind {
                KindModel::Files(ps) => {
                    assert forall|k: int| 0 <= k < ps.len() implies #[trigger] sv.files[k]
                        == parts_of(ps[k]) by {
                        assert(sv.files[k] == st.files@[k]@);
                    }
                },
                _ => {},
            }
            assert(stamp_observed(sv, item@, t@, clock@));
        }
        stamps.push(st);
        i = i + 1;
    }
    let w = RenderWorld { now, now_time, now_date, items: stamps };
    proof {
        assert forall|k: int| 0 <= k < items@.len() implies stamp_observed(
            #[trigger] w@.items[k],
            models(items@)[k],
            t@,
            clock@,
        ) by {
            assert(models(items@)[k] == items@[k]@);
            assert(w@.items[k] == stamps@[k]@);
        }
    }
    w
}

/// The characters of a text, or none when there is no text.
fn text_or_empty(s: Option<String>) -> (r: Vec<char>)
    ensures
        r@ == match s {
            Some(v) => v@,
            None => Seq::<char>::empty(),
        },
{
    match s {
        Some(v) => chars_of(v.as_str()),
        None => Vec::new(),
    }
}

fn file_bindings(path: &str, p: &PathParts) -> (b: Bindings)
    ensures
        binds_view(b@) == file_binds(path@, p@),
{
    let mut b: Bindings = Vec::new();
    b.push(binding("path", chars_of(path)));
    b.push(binding("name", copy_range(p.name.as_slice(), 0, p.name.len())));
    b.push(binding("stem", copy_range(p.stem.as_slice(), 0, p.stem.len())));
    b.push(binding("ext", copy_range(p.ext.as_slice(), 0, p.ext.len())));
    b.push(binding("dir", copy_range(p.dir.as_slice(), 0, p.dir.len())));
    proof {
        assert(p.name@.subrange(0, p.name@.len() as int) =~= p.name@);
        assert(p.stem@.subrange(0, p.stem@.len() as int) =~= p.stem@);
        assert(p.ext@.subrange(0, p.ext@.len() as int) =~= p.ext@);
        assert(p.dir@.subrange(0, p.dir@.len() as int) =~= p.dir@);
        assert(binds_view(b@) =~= file_binds(path@, p@));
    }
    b
}

/// What `{content}` stands for in one fragment.
pub fn content_chars(item: &ClipItem, t: &Template, parts: &[PathParts]) -> (r: Vec<char>)
    requires
        item@.kind matches KindModel::Files(paths) ==> parts@.len() == paths.len(),
    ensures
        r@ == content_spec(item@.kind, t@, parts@.map_values(|p: PathParts| p@)),
{
    match &item.kind {
        ClipKind::Text { text } => {
            let v = chars_of(text.as_str());
            if t.trim_items {
                trim_chars(v.as_slice())
            } else {
                v
            }
        },
        ClipKind::Image { image } => {
            let fmt = unescape_chars(chars_of(t.image_format.as_str()).as_slice());
            let mut b: Bindings = Vec::new();
            b.push(binding("width", decimal_chars(image.width as u64)));
            b.push(binding("height", decimal_chars(image.height as u64)));
            proof {
                assert(binds_view(b@) =~= image_binds(image.width, image.height));
            }
            expand(fmt.as_slice(), b.as_slice(), false)
        },
        ClipKind::Files { paths } => {
            let fmt = unescape_chars(chars_of(t.file_format.as_str()).as_slice());
            let sep = unescape_chars(chars_of(t.file_separator.as_str()).as_slice());
            let ghost pv = parts@.map_values(|p: PathParts| p@);
            let ghost texts = file_texts(strings_view(paths@), pv, fmt@);
            let mut each: Vec<Vec<char>> = Vec::new();
            let mut i: usize = 0;
            while i < paths.len()
                invariant
                    i <= paths@.len() == parts@.len(),
                    pv == parts@.map_values(|p: PathParts| p@),
                    texts == file_texts(strings_view(paths@), pv, fmt@),
                    each@.len() == i,
                    forall|k: int| 0 <= k < i ==> (#[trigger] each@[k])@ == texts[k],
                decreases paths.len() - i,
            {
                let b = file_bindings(paths[i].as_str(), &parts[i]);
                let e = expand(fmt.as_slice(), b.as_slice(), false);
                proof {
                    assert(strings_view(paths@)[i as int] == paths@[i as int]@);
                    assert(pv[i as int] == parts@[i as int]@);
                }
                each.push(e);
                i = i + 1;
            }
            proof {
                assert(each@.map_values(|p: Vec<char>| p@) =~= texts);
            }
            join_chars(each.as_slice(), sep.as_slice())
        },
    }
}

fn item_bindings(item: &ClipItem, idx: usize, count: usize, t: &Template, st: &ItemStamp) -> (b:
    Bindings)
    requires
        item@.kind matches KindModel::Files(paths) ==> st@.files.len() == paths.len(),
        idx < count,
    ensures
        binds_view(b@) == item_binds(item@, idx as nat, count as nat, t@, st@),
{
    let mut b: Bindings = Vec::new();
    b.push(binding("content", content_chars(item, t, st.files.as_slice())));
    b.push(binding("index", decimal_chars((idx + 1) as u64)));
    b.push(binding("index0", decimal_chars(idx as u64)));
    b.push(binding("count", decimal_chars(count as u64)));
    b.push(binding("kind", chars_of(item.kind.kind_name())));
    let source = match &item.source {
        Some(s) => chars_of(s.as_str()),
        None => Vec::new(),
    };
    b.push(binding("source", source));
    b.push(binding("time", copy_range(st.time.as_slice(), 0, st.time.len())));
    b.push(binding("date", copy_range(st.date.as_slice(), 0, st.date.len())));
    proof {
        assert(st.time@.subrange(0, st.time@.len() as int) =~= st.time@);
        assert(st.date@.subrange(0, st.date@.len() as int) =~= st.date@);
        assert(source@ == source_text(item@.source));
        assert(binds_view(b@) =~= item_binds(item@, idx as nat, count as nat, t@, st@));
    }
    b
}

fn bookend_bindings(count: usize, w: &RenderWorld) -> (b: Bindings)
    ensures
        binds_view(b@) == bookend_binds(count as nat, w@),
{
    let mut b: Bindings = Vec::new();
    b.push(binding("count", decimal_chars(count as u64)));
    b.push(binding("time", copy_range(w.now_time.as_slice(), 0, w.now_time.len())));
    b.push(binding("date", copy_range(w.now_date.as_slice(), 0, w.now_date.len())));
    proof {
        assert(w.now_time@.subrange(0, w.now_time@.len() as int) =~= w.now_time@);
        assert(w.now_date@.subrange(0, w.now_date@.len() as int) =~= w.now_date@);
        assert(binds_view(b@) =~= bookend_binds(count as nat, w@));
    }
    b
}

/// One item written with the item format.
pub fn render_item_chars(
    item: &ClipItem,
    idx: usize,
    count: usize,
    t: &Template,
    st: &ItemStamp,
) -> (r: Vec<char>)
    requires
        item@.kind matches KindModel::Files(paths) ==> st@.files.len() == paths.len(),
        idx < count,
    ensures
        r@ == rendered_item(item@, idx as nat, count as nat, t@, st@),
{
    let fmt = unescape_chars(chars_of(t.item_format.as_str()).as_slice());
    let b = item_bindings(item, idx, count, t, st);
    expand(fmt.as_slice(), b.as_slice(), false)
}

/// Render a stack against what the clock and platform said.
pub fn render_with(items: &[&ClipItem], t: &Template, w: &RenderWorld) -> (r: String)
    requires
        world_fits(w@, models(items@)),
    ensures
        r@ == rendered(models(items@), t@, w@),
{
    let n = items.len();
    let ghost ms = models(items@);
    let ghost all = rendered_items(ms, t@, w@);
    let mut parts: Vec<Vec<char>> = Vec::new();
    let mut i: usize = 0;
    while i < n
        invariant
            i <= n == items@.len(),
            ms == models(items@),
            world_fits(w@, ms),
            all == rendered_items(ms, t@, w@),
            parts@.len() == i,
            forall|k: int| 0 <= k < i ==> (#[trigger] parts@[k])@ == all[k],
        decreases n - i,
    {
        proof {
            assert(ms[i as int] == items@[i as int]@);
            assert(w@.items[i as int] == w.items@[i as int]@);
            let _ = ms[i as int];
        }
        let e = render_item_chars(items[i], i, n, t, &w.items[i]);
        parts.push(e);
        i = i + 1;
    }
    let sep = unescape_chars(chars_of(t.separator.as_str()).as_slice());
    let body = join_chars(parts.as_slice(), sep.as_slice());
    proof {
        assert(parts@.map_values(|p: Vec<char>| p@) =~= all);
    }
    let ends = bookend_bindings(n, w);
    let head = expand(unescape_chars(chars_of(t.prefix.as_str()).as_slice()).as_slice(), ends.as_slice(), false);
    let tail = expand(unescape_chars(chars_of(t.suffix.as_str()).as_slice()).as_slice(), ends.as_slice(), false);
    let mut out = head;
    push_all(&mut out, body.as_slice());
    push_all(&mut out, tail.as_slice());
    string_of(out.as_slice())
}

/// Render a whole stack into the block that gets pasted.
///
/// The block is exactly the rendering against what the clock reading says,
/// with each time written from the right instant with the right pattern and
/// each path split as the platform splits it.
pub fn render(items: &[&ClipItem], t: &Template, clock: &ClockReading) -> (r: String)
    ensures
        exists|w: WorldModel|
            observed(w, models(items@), t@, clock@) && r@ == rendered(models(items@), t@, w),
{
    let w = observe(items, t, clock);
    proof {
        observed_fits(w@, models(items@), t@, clock@);
    }
    render_with(items, t, &w)
}

/// A template field with its backslash escapes turned into what they stand
/// for: `\n`, `\t`, `\r`, `\0` and `\\`. Any other escape is kept as it
/// was typed, and so is a trailing lone backslash.
pub fn unescape(raw: &str) -> (r: String)
    ensures
        r@ == unescape_spec(raw@),
{
    let v = chars_of(raw);
    string_of(unescape_chars(v.as_slice()).as_slice())
}

} // verus!
