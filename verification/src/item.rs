//! What a single capture is.

use std::collections::hash_map::DefaultHasher;
use std::hash::Hasher;

use vstd::prelude::*;
use vstd::std_specs::hash::DefaultHasherAdditionalSpecFns;
use vstd::utf8::{
    encode_scalar, encode_utf8, encode_utf8_decode_utf8, last_continuation_byte, leading_byte_width_1,
    leading_byte_width_2, leading_byte_width_3, leading_byte_width_4, second_last_continuation_byte,
    third_last_continuation_byte,
};

use crate::b64::{encode, encoded};
use crate::paths::{components, components_of, file_name, file_name_of};
use crate::text::{
    chars_of, decimal, is_ws, decimal_chars, flatten_breaks, flatten_line_breaks, join, join_chars,
    push_all, push_str_chars, shorten, shortened, string_of, trim, trim_chars,
};

verus! {

/// An image lifted off the clipboard, in the three shapes it is needed in:
/// raw pixels for putting it back on the clipboard, a PNG for a rich paste and
/// the history file, and a small `data:` URI for the list.
///
/// None of it is ever logged: it is the user's screen content.
#[derive(Clone, Debug, PartialEq, Eq)]
pub struct ImagePayload {
    pub width: usize,
    pub height: usize,
    /// Raw RGBA pixels. Never stored in the history.
    pub rgba: Vec<u8>,
    /// PNG encoding, when one was made.
    pub png: Vec<u8>,
    /// A small `data:` URI for the list, when one was made.
    pub thumbnail: String,
}

/// The three things a clipboard can hold that a session accumulates.
#[derive(Clone, Debug, PartialEq, Eq)]
pub enum ClipKind {
    Text { text: String },
    Files { paths: Vec<String> },
    Image { image: ImagePayload },
}

/// One captured fragment, in the order it was grabbed.
#[derive(Clone, Debug, PartialEq, Eq)]
pub struct ClipItem {
    pub id: u64,
    pub kind: ClipKind,
    pub captured_at_ms: u64,
    /// Window or application the fragment came from, when the platform says.
    pub source: Option<String>,
    /// Whether this fragment goes into the block. Unticking is not deleting.
    pub included: bool,
    /// True once the text has been changed by hand.
    pub edited: bool,
}

/// What an image is, as values.
#[verifier::ext_equal]
pub struct ImageModel {
    pub width: usize,
    pub height: usize,
    pub rgba: Seq<u8>,
    pub png: Seq<u8>,
    pub thumbnail: Seq<char>,
}

/// What a capture holds, as values.
#[verifier::ext_equal]
pub enum KindModel {
    Text(Seq<char>),
    Files(Seq<Seq<char>>),
    Image(ImageModel),
}

/// What a fragment is, as values.
#[verifier::ext_equal]
pub struct ClipModel {
    pub id: u64,
    pub kind: KindModel,
    pub captured_at_ms: u64,
    pub source: Option<Seq<char>>,
    pub included: bool,
    pub edited: bool,
}

/// The characters of each string.
pub open spec fn strings_view(v: Seq<String>) -> Seq<Seq<char>> {
    v.map_values(|p: String| p@)
}

/// The characters of an optional string.
pub open spec fn opt_view(s: Option<String>) -> Option<Seq<char>> {
    match s {
        Some(v) => Some(v@),
        None => None,
    }
}

impl View for ImagePayload {
    type V = ImageModel;

    open spec fn view(&self) -> ImageModel {
        ImageModel {
            width: self.width,
            height: self.height,
            rgba: self.rgba@,
            png: self.png@,
            thumbnail: self.thumbnail@,
        }
    }
}

impl View for ClipKind {
    type V = KindModel;

    open spec fn view(&self) -> KindModel {
        match self {
            ClipKind::Text { text } => KindModel::Text(text@),
            ClipKind::Files { paths } => KindModel::Files(strings_view(paths@)),
            ClipKind::Image { image } => KindModel::Image(image@),
        }
    }
}

impl View for ClipItem {
    type V = ClipModel;

    open spec fn view(&self) -> ClipModel {
        ClipModel {
            id: self.id,
            kind: self.kind@,
            captured_at_ms: self.captured_at_ms,
            source: opt_view(self.source),
            included: self.included,
            edited: self.edited,
        }
    }
}

/// The prefix of an image `data:` URI.
pub open spec fn png_uri_prefix() -> Seq<char> {
    "data:image/png;base64,"@
}

/// Whether a capture carries nothing worth keeping. Whitespace-only text
/// counts as empty.
pub open spec fn blank(k: KindModel) -> bool {
    match k {
        KindModel::Text(text) => trim(text).len() == 0,
        KindModel::Files(paths) => paths.len() == 0,
        KindModel::Image(image) => image.width == 0 || image.height == 0,
    }
}

/// The label of a kind: `text`, `files` or `image`.
pub open spec fn kind_label(k: KindModel) -> Seq<char> {
    match k {
        KindModel::Text(..) => "text"@,
        KindModel::Files(..) => "files"@,
        KindModel::Image(..) => "image"@,
    }
}

/// The size indicator of a capture fits in a `usize`.
pub open spec fn weight_fits(k: KindModel) -> bool {
    match k {
        KindModel::Image(image) => image.width * image.height <= usize::MAX,
        _ => true,
    }
}

/// The size indicator shown next to a row: characters of text, number of
/// paths, or pixels of an image.
pub open spec fn weight_of(k: KindModel) -> nat {
    match k {
        KindModel::Text(text) => text.len(),
        KindModel::Files(paths) => paths.len(),
        KindModel::Image(image) => (image.width * image.height) as nat,
    }
}

/// The words `Image WxH`.
pub open spec fn image_label(width: usize, height: usize) -> Seq<char> {
    "Image "@ + decimal(width as nat) + "x"@ + decimal(height as nat)
}

/// The label of one path in a file list: its file name, or the whole path
/// when it has none.
pub open spec fn path_label(path: Seq<char>) -> Seq<char> {
    match file_name_of(path) {
        Some(name) => name,
        None => path,
    }
}

/// The label of each path in a file list.
pub open spec fn path_labels(paths: Seq<Seq<char>>) -> Seq<Seq<char>> {
    paths.map_values(|p: Seq<char>| path_label(p))
}

/// The list label of a capture: the text trimmed, flattened to one line and
/// shortened to `max` characters; the path labels joined by commas and
/// shortened the same way; or `Image WxH`.
pub open spec fn preview_of(k: KindModel, max: nat) -> Seq<char> {
    match k {
        KindModel::Text(text) => shortened(flatten_breaks(trim(text)), max),
        KindModel::Files(paths) => shortened(join(path_labels(paths), ", "@), max),
        KindModel::Image(image) => image_label(image.width, image.height),
    }
}

/// The 64-bit hash of a byte string under the standard library's default
/// hasher, written once and finished.
pub open spec fn sip_digest(bytes: Seq<u8>) -> u64 {
    DefaultHasher::spec_finish(seq![bytes])
}

/// The default hasher, fed these bytes in one write, then finished. Its keys
/// are fixed, so equal bytes give equal hashes.
fn sip_hash(bytes: &[u8]) -> (h: u64)
    ensures
        h == sip_digest(bytes@),
{
    let mut hasher = DefaultHasher::new();
    hasher.write(bytes);
    proof {
        assert(hasher@ =~= seq![bytes@]);
    }
    hasher.finish()
}

/// The eight bytes of `n`, least significant first.
pub open spec fn le_bytes(n: u64) -> Seq<u8> {
    Seq::new(8, |i: int| ((n >> (8 * i) as u64) & 0xffu64) as u8)
}

/// The UTF-8 bytes of each path component, each followed by `0xff`.
pub open spec fn components_bytes(parts: Seq<Seq<char>>) -> Seq<u8>
    decreases parts.len(),
{
    if parts.len() == 0 {
        seq![]
    } else {
        components_bytes(parts.drop_last()) + vstd::utf8::encode_utf8(parts.last()) + seq![0xffu8]
    }
}

/// Each path as the bytes of its components, followed by `0xfe`. UTF-8 never
/// holds either marker byte, so paths with equal components, and only those,
/// give equal bytes.
pub open spec fn paths_bytes(paths: Seq<Seq<char>>) -> Seq<u8>
    decreases paths.len(),
{
    if paths.len() == 0 {
        seq![]
    } else {
        paths_bytes(paths.drop_last()) + components_bytes(components_of(paths.last())) + seq![
            0xfeu8,
        ]
    }
}

/// The bytes a capture's digest is computed over: a tag for the kind, then the
/// content. Equal content of the same kind gives equal bytes (for a file list,
/// paths that are equal as paths), and the tag keeps a text apart from a file
/// list naming the same text.
pub open spec fn digest_input(k: KindModel) -> Seq<u8> {
    match k {
        KindModel::Text(text) => seq![0u8] + vstd::utf8::encode_utf8(text) + seq![0xffu8],
        KindModel::Files(paths) => seq![1u8] + paths_bytes(paths),
        KindModel::Image(image) => seq![2u8] + le_bytes(image.width as u64) + le_bytes(
            image.height as u64,
        ) + image.rgba,
    }
}

/// The content hash of a capture.
pub open spec fn digest_of(k: KindModel) -> u64 {
    sip_digest(digest_input(k))
}

/// A copy of a byte vector.
pub fn copy_bytes(v: &[u8]) -> (r: Vec<u8>)
    ensures
        r@ == v@,
{
    let mut r: Vec<u8> = Vec::new();
    let mut i: usize = 0;
    while i < v.len()
        invariant
            i <= v.len(),
            r@ == v@.take(i as int),
        decreases v.len() - i,
    {
        r.push(v[i]);
        proof {
            assert(v@.take(i + 1) =~= v@.take(i as int).push(v@[i as int]));
        }
        i = i + 1;
    }
    proof {
        assert(v@.take(v.len() as int) =~= v@);
    }
    r
}

/// A copy of a vector of strings.
pub fn copy_strings(v: &Vec<String>) -> (r: Vec<String>)
    ensures
        r@ == v@,
{
    let mut r: Vec<String> = Vec::new();
    let mut i: usize = 0;
    while i < v.len()
        invariant
            i <= v.len(),
            r@ == v@.take(i as int),
        decreases v.len() - i,
    {
        r.push(v[i].clone());
        proof {
            assert(v@.take(i + 1) =~= v@.take(i as int).push(v@[i as int]));
        }
        i = i + 1;
    }
    proof {
        assert(v@.take(v.len() as int) =~= v@);
    }
    r
}

/// A copy of an optional string.
pub fn copy_opt_string(s: &Option<String>) -> (r: Option<String>)
    ensures
        r == *s,
{
    match s {
        Some(v) => Some(v.clone()),
        None => None,
    }
}

fn push_le_bytes(out: &mut Vec<u8>, n: u64)
    ensures
        final(out)@ == old(out)@ + le_bytes(n),
{
    let mut i: u64 = 0;
    while i < 8
        invariant
            i <= 8,
            out@ == old(out)@ + le_bytes(n).take(i as int),
        decreases 8 - i,
    {
        let b = ((n >> (8 * i)) & 0xffu64) as u8;
        out.push(b);
        proof {
            assert(le_bytes(n).take(i + 1) =~= le_bytes(n).take(i as int).push(b));
        }
        i = i + 1;
    }
    proof {
        assert(le_bytes(n).take(8) =~= le_bytes(n));
    }
}

fn push_bytes(out: &mut Vec<u8>, src: &[u8])
    ensures
        final(out)@ == old(out)@ + src@,
{
    let mut i: usize = 0;
    while i < src.len()
        invariant
            i <= src.len(),
            out@ == old(out)@ + src@.take(i as int),
        decreases src.len() - i,
    {
        out.push(src[i]);
        proof {
            assert(src@.take(i + 1) =~= src@.take(i as int).push(src@[i as int]));
        }
        i = i + 1;
    }
    proof {
        assert(src@.take(src.len() as int) =~= src@);
    }
}

fn push_components(out: &mut Vec<u8>, path: &str)
    ensures
        final(out)@ == old(out)@ + components_bytes(components_of(path@)),
{
    let parts = components(path);
    let ghost cs = components_of(path@);
    let mut i: usize = 0;
    while i < parts.len()
        invariant
            i <= parts@.len(),
            parts@.map_values(|c: String| c@) == cs,
            out@ == old(out)@ + components_bytes(cs.take(i as int)),
        decreases parts.len() - i,
    {
        let ghost before = out@;
        push_bytes(out, parts[i].as_str().as_bytes());
        out.push(0xffu8);
        proof {
            let t = cs.take(i + 1);
            assert(t.drop_last() =~= cs.take(i as int));
            assert(t.last() == parts@[i as int]@);
            assert(out@ =~= old(out)@ + components_bytes(t));
        }
        i = i + 1;
    }
    proof {
        assert(cs.take(parts@.len() as int) =~= cs);
    }
}

impl ImagePayload {
    /// A payload with pixels but nothing derived from them yet.
    pub fn raw(width: usize, height: usize, rgba: Vec<u8>) -> (r: Self)
        ensures
            r.width == width,
            r.height == height,
            r.rgba == rgba,
            r.png@.len() == 0,
            r.thumbnail@.len() == 0,
            r@.rgba == rgba@,
    {
        ImagePayload { width, height, rgba, png: Vec::new(), thumbnail: String::new() }
    }

    /// Whether this image can appear in a rich paste: only with a PNG.
    pub fn is_embeddable(&self) -> (b: bool)
        ensures
            b == (self.png@.len() > 0),
    {
        self.png.len() > 0
    }

    /// The PNG as a `data:` URI, or `None` when there is no PNG.
    pub fn data_uri(&self) -> (r: Option<String>)
        ensures
            match r {
                Some(u) => self.png@.len() > 0 && u@ == png_uri_prefix() + encoded(self.png@),
                None => self.png@.len() == 0,
            },
    {
        if self.png.len() == 0 {
            return None;
        }
        let mut out = chars_of("data:image/png;base64,");
        let body = encode(self.png.as_slice());
        push_str_chars(&mut out, body.as_str());
        Some(string_of(out.as_slice()))
    }

    /// A copy of this payload.
    pub fn duplicate(&self) -> (r: Self)
        ensures
            r@ == self@,
    {
        let r = ImagePayload {
            width: self.width,
            height: self.height,
            rgba: copy_bytes(self.rgba.as_slice()),
            png: copy_bytes(self.png.as_slice()),
            thumbnail: self.thumbnail.clone(),
        };
        proof {
            assert(r.rgba@ =~= self.rgba@);
            assert(r.png@ =~= self.png@);
        }
        r
    }
}

impl ClipKind {
    /// A text capture.
    pub fn text(s: &str) -> (r: Self)
        ensures
            r matches ClipKind::Text { text } && text@ == s@,
    {
        ClipKind::Text { text: s.to_owned() }
    }

    /// True when this capture carries nothing worth keeping.
    pub fn is_blank(&self) -> (b: bool)
        ensures
            b == blank(self@),
    {
        match self {
            ClipKind::Text { text } => {
                let v = chars_of(text.as_str());
                let t = trim_chars(v.as_slice());
                t.len() == 0
            },
            ClipKind::Files { paths } => paths.len() == 0,
            ClipKind::Image { image } => image.width == 0 || image.height == 0,
        }
    }

    /// Content hash, used for dedupe inside a session.
    pub fn digest(&self) -> (d: u64)
        ensures
            d == digest_of(self@),
    {
        let mut bytes: Vec<u8> = Vec::new();
        match self {
            ClipKind::Text { text } => {
                bytes.push(0u8);
                push_bytes(&mut bytes, text.as_str().as_bytes());
                bytes.push(0xffu8);
                proof {
                    assert(bytes@ =~= digest_input(self@));
                }
            },
            ClipKind::Files { paths } => {
                bytes.push(1u8);
                let mut i: usize = 0;
                while i < paths.len()
                    invariant
                        i <= paths@.len(),
                        bytes@ == seq![1u8] + paths_bytes(strings_view(paths@).take(i as int)),
                    decreases paths.len() - i,
                {
                    push_components(&mut bytes, paths[i].as_str());
                    bytes.push(0xfeu8);
                    proof {
                        let t = strings_view(paths@).take(i + 1);
                        assert(t.drop_last() =~= strings_view(paths@).take(i as int));
                        assert(bytes@ =~= seq![1u8] + paths_bytes(t));
                    }
                    i = i + 1;
                }
                proof {
                    assert(strings_view(paths@).take(paths@.len() as int) =~= strings_view(paths@));
                }
            },
            ClipKind::Image { image } => {
                bytes.push(2u8);
                push_le_bytes(&mut bytes, image.width as u64);
                push_le_bytes(&mut bytes, image.height as u64);
                push_bytes(&mut bytes, image.rgba.as_slice());
                proof {
                    assert(bytes@ =~= digest_input(self@));
                }
            },
        }
        sip_hash(bytes.as_slice())
    }

    /// Short single-line label for the list, at most `max_chars` long for
    /// text and files. Never the full payload.
    pub fn preview(&self, max_chars: usize) -> (r: String)
        ensures
            r@ == preview_of(self@, max_chars as nat),
    {
        match self {
            ClipKind::Text { text } => {
                let v = chars_of(text.as_str());
                let t = trim_chars(v.as_slice());
                let flat = flatten_line_breaks(t.as_slice());
                string_of(shorten(flat.as_slice(), max_chars).as_slice())
            },
            ClipKind::Files { paths } => {
                let mut names: Vec<Vec<char>> = Vec::new();
                let mut i: usize = 0;
                while i < paths.len()
                    invariant
                        i <= paths@.len(),
                        names@.len() == i,
                        forall|k: int|
                            0 <= k < i ==> #[trigger] names@[k]@ == path_label(paths@[k]@),
                    decreases paths.len() - i,
                {
                    let name = match file_name(paths[i].as_str()) {
                        Some(n) => chars_of(n.as_str()),
                        None => chars_of(paths[i].as_str()),
                    };
                    names.push(name);
                    i = i + 1;
                }
                let sep = chars_of(", ");
                let joined = join_chars(names.as_slice(), sep.as_slice());
                let r = string_of(shorten(joined.as_slice(), max_chars).as_slice());
                proof {
                    let views = names@.map_values(|p: Vec<char>| p@);
                    assert(views =~= path_labels(strings_view(paths@)));
                }
                r
            },
            ClipKind::Image { image } => {
                let mut out = chars_of("Image ");
                let w = decimal_chars(image.width as u64);
                push_all(&mut out, w.as_slice());
                push_str_chars(&mut out, "x");
                let h = decimal_chars(image.height as u64);
                push_all(&mut out, h.as_slice());
                string_of(out.as_slice())
            },
        }
    }

    /// Rough size indicator shown next to each row.
    pub fn weight(&self) -> (w: usize)
        requires
            weight_fits(self@),
        ensures
            w == weight_of(self@),
    {
        match self {
            ClipKind::Text { text } => chars_of(text.as_str()).len(),
            ClipKind::Files { paths } => paths.len(),
            ClipKind::Image { image } => image.width * image.height,
        }
    }

    /// `text`, `files` or `image`.
    pub fn kind_name(&self) -> (r: &'static str)
        ensures
            r@ == kind_label(self@),
    {
        match self {
            ClipKind::Text { .. } => "text",
            ClipKind::Files { .. } => "files",
            ClipKind::Image { .. } => "image",
        }
    }

    /// A copy of this capture.
    pub fn duplicate(&self) -> (r: Self)
        ensures
            r@ == self@,
    {
        match self {
            ClipKind::Text { text } => {
                ClipKind::Text { text: text.clone() }
            },
            ClipKind::Files { paths } => {
                let p = copy_strings(paths);
                proof {
                    assert(strings_view(p@) =~= strings_view(paths@));
                }
                ClipKind::Files { paths: p }
            },
            ClipKind::Image { image } => ClipKind::Image { image: image.duplicate() },
        }
    }
}

impl ClipItem {
    /// A fresh fragment: included, not edited.
    pub fn new(id: u64, kind: ClipKind, captured_at_ms: u64, source: Option<String>) -> (r: Self)
        ensures
            r.id == id,
            r.kind == kind,
            r@.kind == kind@,
            r.captured_at_ms == captured_at_ms,
            r.source == source,
            r.included,
            !r.edited,
    {
        ClipItem { id, kind, captured_at_ms, source, included: true, edited: false }
    }

    /// Only text can be edited in place.
    pub fn is_editable(&self) -> (b: bool)
        ensures
            b == (self@.kind is Text),
    {
        match self.kind {
            ClipKind::Text { .. } => true,
            _ => false,
        }
    }

    /// The full text of a text fragment.
    pub fn text(&self) -> (r: Option<&str>)
        ensures
            match self.kind {
                ClipKind::Text { text } => r matches Some(t) && t@ == text@,
                _ => r is None,
            },
    {
        match &self.kind {
            ClipKind::Text { text } => Some(text.as_str()),
            _ => None,
        }
    }

    /// A copy of this fragment.
    pub fn duplicate(&self) -> (r: Self)
        ensures
            r@ == self@,
    {
        ClipItem {
            id: self.id,
            kind: self.kind.duplicate(),
            captured_at_ms: self.captured_at_ms,
            source: copy_opt_string(&self.source),
            included: self.included,
            edited: self.edited,
        }
    }
}

/// The bytes hashed for a capture start with a tag for its kind, so a text
/// and a file list (or an image) never hash the same bytes, whatever they
/// hold.
pub proof fn law_digest_keeps_kinds_apart(a: KindModel, b: KindModel)
    requires
        kind_label(a) != kind_label(b),
    ensures
        digest_input(a) != digest_input(b),
{
    let x = digest_input(a);
    let y = digest_input(b);
    assert(x[0] != y[0]);
}

proof fn lemma_equal_paths_equal_bytes(a: Seq<Seq<char>>, b: Seq<Seq<char>>)
    requires
        a.len() == b.len(),
        forall|i: int| 0 <= i < a.len() ==> components_of(#[trigger] a[i]) == components_of(b[i]),
    ensures
        paths_bytes(a) == paths_bytes(b),
    decreases a.len(),
{
    if a.len() > 0 {
        assert forall|i: int| 0 <= i < a.drop_last().len() implies components_of(
            #[trigger] a.drop_last()[i],
        ) == components_of(b.drop_last()[i]) by {
            assert(a.drop_last()[i] == a[i] && b.drop_last()[i] == b[i]);
        }
        lemma_equal_paths_equal_bytes(a.drop_last(), b.drop_last());
        assert(components_of(a[a.len() - 1]) == components_of(b[b.len() - 1]));
    }
}

/// File lists whose paths are pairwise equal as paths have equal digests:
/// `a//b` and `a/b/` count as the same path.
pub proof fn law_equal_paths_equal_digest(a: Seq<Seq<char>>, b: Seq<Seq<char>>)
    requires
        a.len() == b.len(),
        forall|i: int| 0 <= i < a.len() ==> components_of(#[trigger] a[i]) == components_of(b[i]),
    ensures
        digest_of(KindModel::Files(a)) == digest_of(KindModel::Files(b)),
{
    lemma_equal_paths_equal_bytes(a, b);
}

/// An image's digest reads its size and pixels only: two images that agree
/// on those have equal digests, whatever their PNG or thumbnail.
pub proof fn law_image_digest_reads_pixels(x: ImageModel, y: ImageModel)
    requires
        x.width == y.width,
        x.height == y.height,
        x.rgba == y.rgba,
    ensures
        digest_of(KindModel::Image(x)) == digest_of(KindModel::Image(y)),
{
}

/// An image's digest reads every pixel: two images whose pixels differ
/// never hash the same bytes, whatever their size.
pub proof fn law_image_digest_reads_every_pixel(x: ImageModel, y: ImageModel)
    requires
        x.rgba != y.rgba,
    ensures
        digest_input(KindModel::Image(x)) != digest_input(KindModel::Image(y)),
{
    let a = digest_input(KindModel::Image(x));
    let b = digest_input(KindModel::Image(y));
    assert(a.skip(17) =~= x.rgba);
    assert(b.skip(17) =~= y.rgba);
}

/// A text's digest reads the whole text: two different texts never hash the
/// same bytes.
pub proof fn law_text_digest_reads_every_char(x: Seq<char>, y: Seq<char>)
    requires
        x != y,
    ensures
        digest_input(KindModel::Text(x)) != digest_input(KindModel::Text(y)),
{
    let a = digest_input(KindModel::Text(x));
    let b = digest_input(KindModel::Text(y));
    if a == b {
        let ex = vstd::utf8::encode_utf8(x);
        let ey = vstd::utf8::encode_utf8(y);
        assert(a.subrange(1, a.len() - 1) =~= ex);
        assert(b.subrange(1, b.len() - 1) =~= ey);
        vstd::utf8::encode_utf8_decode_utf8(x);
        vstd::utf8::encode_utf8_decode_utf8(y);
    }
}

proof fn lemma_le_bytes_injective(a: u64, b: u64)
    requires
        le_bytes(a) == le_bytes(b),
    ensures
        a == b,
{
    let x = le_bytes(a);
    let y = le_bytes(b);
    assert(x[0] == y[0] && x[1] == y[1] && x[2] == y[2] && x[3] == y[3]);
    assert(x[4] == y[4] && x[5] == y[5] && x[6] == y[6] && x[7] == y[7]);
    assert(a == b) by (bit_vector)
        requires
            ((a >> 0u64) & 0xffu64) as u8 == ((b >> 0u64) & 0xffu64) as u8,
            ((a >> 8u64) & 0xffu64) as u8 == ((b >> 8u64) & 0xffu64) as u8,
            ((a >> 16u64) & 0xffu64) as u8 == ((b >> 16u64) & 0xffu64) as u8,
            ((a >> 24u64) & 0xffu64) as u8 == ((b >> 24u64) & 0xffu64) as u8,
            ((a >> 32u64) & 0xffu64) as u8 == ((b >> 32u64) & 0xffu64) as u8,
            ((a >> 40u64) & 0xffu64) as u8 == ((b >> 40u64) & 0xffu64) as u8,
            ((a >> 48u64) & 0xffu64) as u8 == ((b >> 48u64) & 0xffu64) as u8,
            ((a >> 56u64) & 0xffu64) as u8 == ((b >> 56u64) & 0xffu64) as u8,
    ;
}

proof fn lemma_four_parts(p: Seq<u8>, q: Seq<u8>, r: Seq<u8>, t: Seq<u8>)
    requires
        p.len() == 1,
        q.len() == 8,
        r.len() == 8,
    ensures
        (p + q + r + t).subrange(1, 9) == q,
        (p + q + r + t).subrange(9, 17) == r,
        (p + q + r + t).skip(17) == t,
{
    assert((p + q + r + t).subrange(1, 9) =~= q);
    assert((p + q + r + t).subrange(9, 17) =~= r);
    assert((p + q + r + t).skip(17) =~= t);
}

/// Two images hash the same bytes only when they have the same size and the
/// same pixels: the digest reads the width, the height and every pixel.
pub proof fn law_image_digest_reads_size_and_pixels(x: ImageModel, y: ImageModel)
    requires
        digest_input(KindModel::Image(x)) == digest_input(KindModel::Image(y)),
    ensures
        x.width == y.width,
        x.height == y.height,
        x.rgba == y.rgba,
{
    let lw = le_bytes(x.width as u64);
    let lh = le_bytes(x.height as u64);
    let mw = le_bytes(y.width as u64);
    let mh = le_bytes(y.height as u64);
    assert(lw.len() == 8 && lh.len() == 8 && mw.len() == 8 && mh.len() == 8);
    lemma_four_parts(seq![2u8], lw, lh, x.rgba);
    lemma_four_parts(seq![2u8], mw, mh, y.rgba);
    lemma_le_bytes_injective(x.width as u64, y.width as u64);
    lemma_le_bytes_injective(x.height as u64, y.height as u64);
}

proof fn lemma_scalar_bytes_low(v: u32)
    ensures
        forall|i: int| 0 <= i < encode_scalar(v).len() ==> #[trigger] encode_scalar(v)[i] < 0xf8,
{
    assert(leading_byte_width_1(v) < 0xf8) by (bit_vector);
    assert(leading_byte_width_2(v) < 0xf8) by (bit_vector);
    assert(leading_byte_width_3(v) < 0xf8) by (bit_vector);
    assert(leading_byte_width_4(v) < 0xf8) by (bit_vector);
    assert(last_continuation_byte(v) < 0xf8) by (bit_vector);
    assert(second_last_continuation_byte(v) < 0xf8) by (bit_vector);
    assert(third_last_continuation_byte(v) < 0xf8) by (bit_vector);
}

/// UTF-8 never holds a byte of `0xf8` or above.
proof fn lemma_utf8_low(s: Seq<char>)
    ensures
        forall|i: int| 0 <= i < encode_utf8(s).len() ==> #[trigger] encode_utf8(s)[i] < 0xf8,
    decreases s.len(),
{
    if s.len() > 0 {
        lemma_utf8_low(s.drop_first());
        lemma_scalar_bytes_low(s[0] as u32);
        let h = encode_scalar(s[0] as u32);
        let t = encode_utf8(s.drop_first());
        assert forall|i: int| 0 <= i < (h + t).len() implies #[trigger] (h + t)[i] < 0xf8 by {
            if i < h.len() {
                assert((h + t)[i] == h[i]);
            } else {
                assert((h + t)[i] == t[i - h.len()]);
            }
        }
    }
}

/// The bytes of a path's components hold no `0xfe`, and end in `0xff` when
/// there are any.
proof fn lemma_components_bytes_shape(cs: Seq<Seq<char>>)
    ensures
        forall|i: int|
            0 <= i < components_bytes(cs).len() ==> #[trigger] components_bytes(cs)[i] != 0xfe,
        components_bytes(cs).len() == 0 <==> cs.len() == 0,
        cs.len() > 0 ==> components_bytes(cs).last() == 0xff,
    decreases cs.len(),
{
    if cs.len() > 0 {
        lemma_components_bytes_shape(cs.drop_last());
        lemma_utf8_low(cs.last());
        let p = components_bytes(cs.drop_last());
        let u = encode_utf8(cs.last());
        let w = p + u + seq![0xffu8];
        assert forall|i: int| 0 <= i < w.len() implies #[trigger] w[i] != 0xfe by {
            if i < p.len() {
                assert(w[i] == p[i]);
            } else if i < p.len() + u.len() {
                assert(w[i] == u[i - p.len()]);
            } else {
                assert(w[i] == 0xff);
            }
        }
    }
}

/// The bytes of a file list end in `0xfe` when there is any path.
proof fn lemma_paths_bytes_shape(ps: Seq<Seq<char>>)
    ensures
        paths_bytes(ps).len() == 0 <==> ps.len() == 0,
        ps.len() > 0 ==> paths_bytes(ps).last() == 0xfe,
    decreases ps.len(),
{
    if ps.len() > 0 {
        lemma_paths_bytes_shape(ps.drop_last());
    }
}

/// Where two byte strings are each a part that is empty or ends in the
/// marker, followed by a part free of it, the parts agree.
proof fn lemma_split_at_marker(x: Seq<u8>, c1: Seq<u8>, y: Seq<u8>, c2: Seq<u8>, m: u8)
    requires
        x.len() == 0 || x.last() == m,
        y.len() == 0 || y.last() == m,
        forall|i: int| 0 <= i < c1.len() ==> #[trigger] c1[i] != m,
        forall|i: int| 0 <= i < c2.len() ==> #[trigger] c2[i] != m,
        x + c1 == y + c2,
    ensures
        x == y,
        c1 == c2,
{
    if x.len() < y.len() {
        let k = y.len() - 1;
        assert((y + c2)[k] == m);
        assert((x + c1)[k] == c1[k - x.len()]);
    } else if y.len() < x.len() {
        let k = x.len() - 1;
        assert((x + c1)[k] == m);
        assert((y + c2)[k] == c2[k - y.len()]);
    } else {
        assert(x =~= (x + c1).take(x.len() as int));
        assert(y =~= (y + c2).take(y.len() as int));
        assert(c1 =~= (x + c1).skip(x.len() as int));
        assert(c2 =~= (y + c2).skip(y.len() as int));
    }
}

proof fn lemma_components_bytes_injective(cs: Seq<Seq<char>>, ds: Seq<Seq<char>>)
    requires
        components_bytes(cs) == components_bytes(ds),
    ensures
        cs == ds,
    decreases cs.len(),
{
    lemma_components_bytes_shape(cs);
    lemma_components_bytes_shape(ds);
    if cs.len() > 0 {
        let p = components_bytes(cs.drop_last());
        let q = components_bytes(ds.drop_last());
        let u = encode_utf8(cs.last());
        let v = encode_utf8(ds.last());
        let a = components_bytes(cs);
        assert(p + u + seq![0xffu8] == a);
        assert(q + v + seq![0xffu8] == a);
        assert((p + u + seq![0xffu8]).drop_last() =~= p + u);
        assert((q + v + seq![0xffu8]).drop_last() =~= q + v);
        lemma_components_bytes_shape(cs.drop_last());
        lemma_components_bytes_shape(ds.drop_last());
        lemma_utf8_low(cs.last());
        lemma_utf8_low(ds.last());
        assert forall|i: int| 0 <= i < u.len() implies #[trigger] u[i] != 0xff by {}
        assert forall|i: int| 0 <= i < v.len() implies #[trigger] v[i] != 0xff by {}
        lemma_split_at_marker(p, u, q, v, 0xff);
        lemma_components_bytes_injective(cs.drop_last(), ds.drop_last());
        encode_utf8_decode_utf8(cs.last());
        encode_utf8_decode_utf8(ds.last());
        assert(cs =~= cs.drop_last().push(cs.last()));
        assert(ds =~= ds.drop_last().push(ds.last()));
    } else {
        assert(cs =~= ds);
    }
}

proof fn lemma_paths_bytes_injective(a: Seq<Seq<char>>, b: Seq<Seq<char>>)
    requires
        paths_bytes(a) == paths_bytes(b),
    ensures
        a.len() == b.len(),
        forall|i: int| 0 <= i < a.len() ==> components_of(#[trigger] a[i]) == components_of(b[i]),
    decreases a.len(),
{
    lemma_paths_bytes_shape(a);
    lemma_paths_bytes_shape(b);
    if a.len() > 0 {
        let p = paths_bytes(a.drop_last());
        let q = paths_bytes(b.drop_last());
        let u = components_bytes(components_of(a.last()));
        let v = components_bytes(components_of(b.last()));
        let w = paths_bytes(a);
        assert(p + u + seq![0xfeu8] == w);
        assert(q + v + seq![0xfeu8] == w);
        assert((p + u + seq![0xfeu8]).drop_last() =~= p + u);
        assert((q + v + seq![0xfeu8]).drop_last() =~= q + v);
        lemma_paths_bytes_shape(a.drop_last());
        lemma_paths_bytes_shape(b.drop_last());
        lemma_components_bytes_shape(components_of(a.last()));
        lemma_components_bytes_shape(components_of(b.last()));
        lemma_split_at_marker(p, u, q, v, 0xfe);
        lemma_components_bytes_injective(components_of(a.last()), components_of(b.last()));
        lemma_paths_bytes_injective(a.drop_last(), b.drop_last());
        assert forall|i: int| 0 <= i < a.len() implies components_of(#[trigger] a[i])
            == components_of(b[i]) by {
            if i < a.len() - 1 {
                assert(a.drop_last()[i] == a[i]);
                assert(b.drop_last()[i] == b[i]);
            }
        }
    }
}

/// Two file lists hash the same bytes only when they name the same paths in
/// the same order, each compared as the platform compares paths.
pub proof fn law_files_digest_reads_every_path(a: Seq<Seq<char>>, b: Seq<Seq<char>>)
    requires
        digest_input(KindModel::Files(a)) == digest_input(KindModel::Files(b)),
    ensures
        a.len() == b.len(),
        forall|i: int| 0 <= i < a.len() ==> components_of(#[trigger] a[i]) == components_of(b[i]),
{
    let x = digest_input(KindModel::Files(a));
    assert(x.drop_first() =~= paths_bytes(a));
    assert(digest_input(KindModel::Files(b)).drop_first() =~= paths_bytes(b));
    lemma_paths_bytes_injective(a, b);
}

/// A capture is blank exactly when it carries nothing: text made only of
/// whitespace, a file list with no path, or an image with no width or no
/// height.
pub proof fn law_blank_means_nothing_to_keep(k: KindModel)
    ensures
        k matches KindModel::Text(t) ==> (blank(k) <==> forall|i: int|
            0 <= i < t.len() ==> is_ws(#[trigger] t[i])),
        k matches KindModel::Files(ps) ==> (blank(k) <==> ps.len() == 0),
        k matches KindModel::Image(im) ==> (blank(k) <==> (im.width == 0 || im.height == 0)),
{
    match k {
        KindModel::Text(t) => {
            crate::text::law_trim_empty_iff_all_whitespace(t);
        },
        _ => {},
    }
}

} // verus!
