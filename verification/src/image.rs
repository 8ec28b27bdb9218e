//! Image extraction: relationship-id lookup in drawing and pict elements,
//! archive entry reading, and inline or file-reference markup. Reading
//! archive entries and base64 encoding are done by outside crates behind
//! trusted wrappers; file writing is left to the caller through a pending
//! list.

use vstd::prelude::*;

use crate::error::Error;
use crate::model::{DrawingNode, PictNode, RelationshipMap, spec_lookup_str};
use crate::text::{push_char, spec_ascii_lower, spec_dec_digits, ascii_lower, u64_to_string};
use crate::ImageHandling;
use base64::Engine;

verus! {

/// The standard base64 encoding (with padding) of a byte string.
pub uninterp spec fn base64_of(bytes: Seq<u8>) -> Seq<char>;

/// Relies on base64's Engine::encode with the STANDARD engine: the encoding
/// is a function of the input bytes alone, and an empty input encodes to an
/// empty string.
#[verifier::external_body]
fn encode_base64(bytes: &Vec<u8>) -> (r: String)
    ensures
        r@ == base64_of(bytes@),
        bytes@.len() == 0 ==> r@.len() == 0,
{
    base64::engine::general_purpose::STANDARD.encode(bytes)
}

/// The decompressed contents of the named entry of a ZIP archive given as
/// bytes, or None when the archive cannot be read or has no such entry.
pub uninterp spec fn archive_entry_of(archive: Seq<u8>, name: Seq<char>) -> Option<Seq<u8>>;

/// Relies on zip's ZipArchive::new and by_name over an in-memory reader,
/// and std's Read::read_to_end: which entry a byte string holds under a
/// name, and what it decompresses to, depend on the bytes and the name
/// alone.
#[verifier::external_body]
fn read_archive_entry(bytes: &Vec<u8>, name: &str) -> (r: Option<Vec<u8>>)
    ensures
        match r {
            Option::Some(v) => archive_entry_of(bytes@, name@) == Option::Some(v@),
            Option::None => archive_entry_of(bytes@, name@) is None,
        },
{
    let cursor = std::io::Cursor::new(bytes.as_slice());
    let mut archive = match zip::ZipArchive::new(cursor) {
        Ok(a) => a,
        Err(_) => return None,
    };
    let mut entry = match archive.by_name(name) {
        Ok(e) => e,
        Err(_) => return None,
    };
    let mut data = Vec::new();
    match std::io::Read::read_to_end(&mut entry, &mut data) {
        Ok(_) => Some(data),
        Err(_) => None,
    }
}

/// Where image bytes come from: an in-memory archive, or nowhere (images
/// then resolve to empty data, as for a skipping extractor).
#[derive(Debug)]
pub enum ImageSource {
    Bytes(Vec<u8>),
    NoSource,
}

/// Extractor for images referenced from the document. File output is not
/// performed here: in the directory mode each image's bytes are queued in
/// pending_writes under their file name for the caller to write.
#[derive(Debug)]
pub struct ImageExtractor {
    pub mode: ImageHandling,
    pub source: ImageSource,
    pub counter: u64,
    pub pending_writes: Vec<(String, Vec<u8>)>,
}

/// The relationship id an embedded DrawingML image carries: the inline
/// graphic's, else the anchored graphic's, when non-empty.
pub open spec fn spec_find_blip_id(d: DrawingNode) -> Option<Seq<char>> {
    match d.inline_embed {
        Option::Some(e) => if e@.len() > 0 {
            Option::Some(e@)
        } else {
            spec_find_anchor_id(d)
        },
        Option::None => spec_find_anchor_id(d),
    }
}

pub open spec fn spec_find_anchor_id(d: DrawingNode) -> Option<Seq<char>> {
    match d.anchor_embed {
        Option::Some(e) => if e@.len() > 0 {
            Option::Some(e@)
        } else {
            Option::None
        },
        Option::None => Option::None,
    }
}

/// The relationship id a VML picture carries: the shape's image data, else
/// the rect's.
pub open spec fn spec_find_pict_id(p: PictNode) -> Option<Seq<char>> {
    match p.shape_image_id {
        Option::Some(e) => Option::Some(e@),
        Option::None => match p.rect_image_id {
            Option::Some(e) => Option::Some(e@),
            Option::None => Option::None,
        },
    }
}

/// The file-name suffix after the last dot of the last path component, when
/// that dot is not the component's first character.
pub open spec fn spec_extension_of(path: Seq<char>) -> Option<Seq<char>> {
    let name_start = spec_last_slash(path) + 1;
    let dot = spec_last_dot(path);
    if dot > name_start {
        Option::Some(path.skip(dot + 1))
    } else {
        Option::None
    }
}

/// Index of the last '/' in the path, or -1.
pub open spec fn spec_last_slash(path: Seq<char>) -> int
    decreases path.len(),
{
    if path.len() == 0 {
        -1
    } else if path.last() == '/' {
        path.len() - 1
    } else {
        spec_last_slash(path.drop_last())
    }
}

/// Index of the last '.' in the path, or -1.
pub open spec fn spec_last_dot(path: Seq<char>) -> int
    decreases path.len(),
{
    if path.len() == 0 {
        -1
    } else if path.last() == '.' {
        path.len() - 1
    } else {
        spec_last_dot(path.drop_last())
    }
}

proof fn lemma_last_marks_bound(path: Seq<char>)
    ensures
        -1 <= spec_last_dot(path) < path.len(),
        -1 <= spec_last_slash(path) < path.len(),
    decreases path.len(),
{
    if path.len() > 0 {
        lemma_last_marks_bound(path.drop_last());
    }
}

fn last_index_of(path: &str, c: char) -> (r: Option<usize>)
    ensures
        ({
            let idx = if c == '/' {
                spec_last_slash(path@)
            } else {
                spec_last_dot(path@)
            };
            (c == '/' || c == '.') ==> match r {
                Option::Some(i) => idx == i as int,
                Option::None => idx == -1,
            }
        }),
{
    let n = path.unicode_len();
    let mut i: usize = n;
    proof {
        assert(path@.take(n as int) =~= path@);
    }
    while i > 0
        invariant
            n == path@.len(),
            0 <= i <= n,
            c == '/' ==> spec_last_slash(path@) == spec_last_slash(path@.take(i as int)),
            c == '.' ==> spec_last_dot(path@) == spec_last_dot(path@.take(i as int)),
        decreases i,
    {
        i = i - 1;
        proof {
            assert(path@.take(i + 1).last() == path@[i as int]);
            assert(path@.take(i + 1).drop_last() =~= path@.take(i as int));
        }
        if path.get_char(i) == c {
            return Option::Some(i);
        }
    }
    proof {
        assert(path@.take(0) =~= Seq::<char>::empty());
    }
    Option::None
}

/// The extension of a path, or "png" when it has none.
pub open spec fn spec_ext_or_png(path: Seq<char>) -> Seq<char> {
    match spec_extension_of(path) {
        Option::Some(e) => e,
        Option::None => "png"@,
    }
}

fn extension_or_png(path: &str) -> (r: String)
    ensures
        r@ == spec_ext_or_png(path@),
{
    let n = path.unicode_len();
    let slash: i128 = match last_index_of(path, '/') {
        Option::Some(i) => i as i128,
        Option::None => -1,
    };
    let dot: i128 = match last_index_of(path, '.') {
        Option::Some(i) => i as i128,
        Option::None => -1,
    };
    if dot > slash + 1 {
        proof {
            lemma_last_marks_bound(path@);
        }
        let from = (dot + 1) as usize;
        let s = path.substring_char(from, n);
        proof {
            assert(s@ =~= path@.skip(dot + 1));
        }
        s.to_owned()
    } else {
        String::from_str("png")
    }
}

/// The media type announced for an image extension.
pub open spec fn spec_mime(ext_lower: Seq<char>) -> Seq<char> {
    if ext_lower == "png"@ {
        "image/png"@
    } else if ext_lower == "jpg"@ || ext_lower == "jpeg"@ {
        "image/jpeg"@
    } else if ext_lower == "gif"@ {
        "image/gif"@
    } else if ext_lower == "webp"@ {
        "image/webp"@
    } else if ext_lower == "svg"@ {
        "image/svg+xml"@
    } else {
        "application/octet-stream"@
    }
}

fn mime_of(ext_lower: &str) -> (r: String)
    ensures
        r@ == spec_mime(ext_lower@),
{
    if crate::text::str_eq(ext_lower, "png") {
        String::from_str("image/png")
    } else if crate::text::str_eq(ext_lower, "jpg") || crate::text::str_eq(ext_lower, "jpeg") {
        String::from_str("image/jpeg")
    } else if crate::text::str_eq(ext_lower, "gif") {
        String::from_str("image/gif")
    } else if crate::text::str_eq(ext_lower, "webp") {
        String::from_str("image/webp")
    } else if crate::text::str_eq(ext_lower, "svg") {
        String::from_str("image/svg+xml")
    } else {
        String::from_str("application/octet-stream")
    }
}

/// The archive path an image path resolves to: media paths inside the
/// document are relative to the word directory unless already so prefixed.
pub open spec fn spec_word_path(p: Seq<char>) -> Seq<char> {
    if p.len() >= 5 && p.subrange(0, 5) == "word/"@ {
        p
    } else {
        "word/"@ + p
    }
}

/// What reading an image out of the extractor's source yields.
pub open spec fn spec_read_image(source: ImageSource, p: Seq<char>) -> Option<Seq<u8>> {
    match source {
        ImageSource::Bytes(bytes) => match archive_entry_of(bytes@, spec_word_path(p)) {
            Option::Some(d) => Option::Some(d),
            Option::None => match archive_entry_of(bytes@, p) {
                Option::Some(d) => Option::Some(d),
                Option::None => Option::None,
            },
        },
        ImageSource::NoSource => Option::Some(Seq::empty()),
    }
}

impl ImageExtractor {
    /// An extractor that embeds images as base64 data URIs, reading them
    /// from the given archive bytes.
    pub fn new_inline_from_bytes(bytes: &[u8]) -> (r: Result<ImageExtractor, Error>)
        ensures
            r is Ok,
            r->Ok_0.mode is Inline,
            r->Ok_0.source is Bytes,
            r->Ok_0.source->Bytes_0@ == bytes@,
            r->Ok_0.counter == 0,
            r->Ok_0.pending_writes@.len() == 0,
    {
        let mut owned: Vec<u8> = Vec::new();
        let n = bytes.len();
        let mut i: usize = 0;
        while i < n
            invariant
                n == bytes@.len(),
                0 <= i <= n,
                owned@ == bytes@.take(i as int),
            decreases n - i,
        {
            owned.push(bytes[i]);
            proof {
                assert(bytes@.take(i + 1) =~= bytes@.take(i as int).push(bytes@[i as int]));
            }
            i = i + 1;
        }
        proof {
            assert(bytes@.take(n as int) =~= bytes@);
        }
        Ok(
            ImageExtractor {
                mode: ImageHandling::Inline,
                source: ImageSource::Bytes(owned),
                counter: 0,
                pending_writes: Vec::new(),
            },
        )
    }

    /// An extractor that records images for a directory, reading them from
    /// the given archive bytes. The caller creates the directory and writes
    /// the queued files.
    pub fn new_with_dir_from_bytes(bytes: &[u8], output_dir: String) -> (r: Result<
        ImageExtractor,
        Error,
    >)
        ensures
            r is Ok,
            r->Ok_0.mode == ImageHandling::SaveToDir(output_dir),
            r->Ok_0.source is Bytes,
            r->Ok_0.source->Bytes_0@ == bytes@,
            r->Ok_0.counter == 0,
            r->Ok_0.pending_writes@.len() == 0,
    {
        let mut owned: Vec<u8> = Vec::new();
        let n = bytes.len();
        let mut i: usize = 0;
        while i < n
            invariant
                n == bytes@.len(),
                0 <= i <= n,
                owned@ == bytes@.take(i as int),
            decreases n - i,
        {
            owned.push(bytes[i]);
            proof {
                assert(bytes@.take(i + 1) =~= bytes@.take(i as int).push(bytes@[i as int]));
            }
            i = i + 1;
        }
        proof {
            assert(bytes@.take(n as int) =~= bytes@);
        }
        Ok(
            ImageExtractor {
                mode: ImageHandling::SaveToDir(output_dir),
                source: ImageSource::Bytes(owned),
                counter: 0,
                pending_writes: Vec::new(),
            },
        )
    }

    /// An extractor that skips all images.
    pub fn new_skip() -> (r: ImageExtractor)
        ensures
            r.mode is Skip,
            r.source is NoSource,
            r.counter == 0,
            r.pending_writes@.len() == 0,
    {
        ImageExtractor {
            mode: ImageHandling::Skip,
            source: ImageSource::NoSource,
            counter: 0,
            pending_writes: Vec::new(),
        }
    }
}

pub open spec fn spec_sat_inc_u64(c: u64) -> u64 {
    if c == u64::MAX {
        c
    } else {
        (c + 1) as u64
    }
}

/// The file name an extracted image is stored under.
pub open spec fn spec_image_filename(counter: u64, ext: Seq<char>) -> Seq<char> {
    "image_"@ + spec_dec_digits(counter as nat) + "."@ + ext
}

/// The inline markup an embedded image renders as.
pub open spec fn spec_inline_markup(mime: Seq<char>, b64: Seq<char>) -> Seq<char> {
    "<img src=\"data:"@ + mime + ";base64,"@ + b64 + "\" alt=\"image\" />"@
}

/// The file-reference markup a saved image renders as.
pub open spec fn spec_dir_markup(dir: Seq<char>, filename: Seq<char>) -> Seq<char> {
    "![image]("@ + dir + "/"@ + filename + ")"@
}

/// Everything processing one image path does: reading from the archive
/// (failure is the one error case), advancing the name counter, and either
/// queueing the bytes under a file name or inlining them as base64.
pub open spec fn spec_process_post(
    pre: ImageExtractor,
    post: ImageExtractor,
    p: Seq<char>,
    r: Result<Option<String>, Error>,
) -> bool {
    &&& post.mode == pre.mode
    &&& post.source == pre.source
    &&& match spec_read_image(pre.source, p) {
        Option::None => {
            &&& r is Err
            &&& r->Err_0 is MediaNotFound
            &&& r->Err_0->MediaNotFound_0@ == p
            &&& post.counter == pre.counter
            &&& post.pending_writes@ == pre.pending_writes@
        },
        Option::Some(data) => {
            let ext = spec_ext_or_png(p);
            let counter = spec_sat_inc_u64(pre.counter);
            &&& post.counter == counter
            &&& match pre.mode {
                ImageHandling::Skip => {
                    &&& r == Result::<Option<String>, Error>::Ok(Option::None)
                    &&& post.pending_writes@ == pre.pending_writes@
                },
                ImageHandling::SaveToDir(dir) => {
                    &&& r is Ok
                    &&& r->Ok_0 is Some
                    &&& r->Ok_0->Some_0@ == spec_dir_markup(dir@, spec_image_filename(counter, ext))
                    &&& post.pending_writes@.len() == pre.pending_writes@.len() + 1
                    &&& post.pending_writes@.last().0@ == spec_image_filename(counter, ext)
                    &&& post.pending_writes@.last().1@ == data
                    &&& post.pending_writes@.take(pre.pending_writes@.len() as int)
                        == pre.pending_writes@
                },
                ImageHandling::Inline => {
                    &&& r is Ok
                    &&& r->Ok_0 is Some
                    &&& r->Ok_0->Some_0@ == spec_inline_markup(
                        spec_mime(spec_ascii_lower(ext)),
                        base64_of(data),
                    )
                    &&& post.pending_writes@ == pre.pending_writes@
                },
            }
        },
    }
}

impl ImageExtractor {
    /// Reads an image's bytes out of the archive source: media paths are
    /// tried under the word directory first, then as given.
    fn read_image_from_docx(&self, image_path: &str) -> (r: Result<Vec<u8>, Error>)
        ensures
            match spec_read_image(self.source, image_path@) {
                Option::Some(d) => r is Ok && r->Ok_0@ == d,
                Option::None => r is Err && r->Err_0 is MediaNotFound
                    && r->Err_0->MediaNotFound_0@ == image_path@,
            },
    {
        match &self.source {
            ImageSource::Bytes(bytes) => {
                let mut full = String::from_str("word/");
                full.append(image_path);
                let already = crate::text::starts_with_str(image_path, "word/");
                let first: String = if already {
                    String::from_str(image_path)
                } else {
                    full
                };
                proof {
                    reveal_strlit("word/");
                    assert("word/"@.len() == 5);
                    if already {
                        assert(image_path@.subrange(0, 5) == "word/"@);
                        assert(first@ == spec_word_path(image_path@));
                    } else {
                        assert(first@ == spec_word_path(image_path@));
                    }
                }
                match read_archive_entry(bytes, first.as_str()) {
                    Option::Some(d) => Ok(d),
                    Option::None => match read_archive_entry(bytes, image_path) {
                        Option::Some(d) => Ok(d),
                        Option::None => Err(Error::MediaNotFound(String::from_str(image_path))),
                    },
                }
            },
            ImageSource::NoSource => {
                proof {
                    assert(spec_read_image(self.source, image_path@) == Option::Some(
                        Seq::<u8>::empty(),
                    ));
                }
                Ok(Vec::new())
            },
        }
    }

    /// Processes one image path: reads its bytes and produces the markup for
    /// the configured handling, queueing file output for the caller.
    fn process_image(&mut self, image_path: &str) -> (r: Result<Option<String>, Error>)
        ensures
            spec_process_post(*old(self), *final(self), image_path@, r),
    {
        let data = match self.read_image_from_docx(image_path) {
            Ok(d) => d,
            Err(e) => {
                return Err(e);
            },
        };
        self.counter = if self.counter == u64::MAX {
            self.counter
        } else {
            self.counter + 1
        };
        let ext = extension_or_png(image_path);
        match &self.mode {
            ImageHandling::SaveToDir(dir) => {
                let mut filename = String::from_str("image_");
                let num = u64_to_string(self.counter);
                filename.append(num.as_str());
                filename.append(".");
                filename.append(ext.as_str());
                let mut output_path = dir.clone();
                output_path.append("/");
                output_path.append(filename.as_str());
                let mut markup = String::from_str("![image](");
                markup.append(output_path.as_str());
                markup.append(")");
                proof {
                    assert(markup@ =~= spec_dir_markup(dir@, filename@));
                }
                self.pending_writes.push((filename, data));
                proof {
                    assert(self.pending_writes@.take(old(self).pending_writes@.len() as int)
                        =~= old(self).pending_writes@);
                }
                Ok(Option::Some(markup))
            },
            ImageHandling::Inline => {
                let lower = ascii_lower(ext.as_str());
                let mime = mime_of(lower.as_str());
                let b64 = encode_base64(&data);
                let mut markup = String::from_str("<img src=\"data:");
                markup.append(mime.as_str());
                markup.append(";base64,");
                markup.append(b64.as_str());
                markup.append("\" alt=\"image\" />");
                Ok(Option::Some(markup))
            },
            ImageHandling::Skip => Ok(Option::None),
        }
    }

    /// Extracts the image markup for a DrawingML element: its relationship
    /// id is resolved through the relationship table, then the image is
    /// processed. Unresolvable references yield no image rather than an
    /// error.
    pub fn extract_from_drawing(&mut self, drawing: &DrawingNode, rels: &RelationshipMap) -> (r:
        Result<Option<String>, Error>)
        ensures
            final(self).mode == old(self).mode,
            final(self).source == old(self).source,
            old(self).mode is Skip ==> r == Result::<Option<String>, Error>::Ok(Option::None)
                && *final(self) == *old(self),
            !(old(self).mode is Skip) ==> match spec_find_blip_id(*drawing) {
                Option::None => r == Result::<Option<String>, Error>::Ok(Option::None)
                    && *final(self) == *old(self),
                Option::Some(id) => match spec_lookup_str(rels.entries@, id) {
                    Option::None => r == Result::<Option<String>, Error>::Ok(Option::None)
                        && *final(self) == *old(self),
                    Option::Some(p) => spec_process_post(*old(self), *final(self), p, r),
                },
            },
    {
        if matches!(&self.mode, ImageHandling::Skip) {
            return Ok(Option::None);
        }
        let blip_id: Option<String> = match &drawing.inline_embed {
            Option::Some(e) => if e.unicode_len() > 0 {
                Option::Some(e.clone())
            } else {
                match &drawing.anchor_embed {
                    Option::Some(a) => if a.unicode_len() > 0 {
                        Option::Some(a.clone())
                    } else {
                        Option::None
                    },
                    Option::None => Option::None,
                }
            },
            Option::None => match &drawing.anchor_embed {
                Option::Some(a) => if a.unicode_len() > 0 {
                    Option::Some(a.clone())
                } else {
                    Option::None
                },
                Option::None => Option::None,
            },
        };
        let rel_id = match blip_id {
            Option::Some(id) => id,
            Option::None => {
                return Ok(Option::None);
            },
        };
        let image_path = match rels.get(rel_id.as_str()) {
            Option::Some(p) => p,
            Option::None => {
                return Ok(Option::None);
            },
        };
        self.process_image(image_path.as_str())
    }

    /// Extracts the image markup for a legacy VML picture element.
    pub fn extract_from_pict(&mut self, pict: &PictNode, rels: &RelationshipMap) -> (r: Result<
        Option<String>,
        Error,
    >)
        ensures
            final(self).mode == old(self).mode,
            final(self).source == old(self).source,
            old(self).mode is Skip ==> r == Result::<Option<String>, Error>::Ok(Option::None)
                && *final(self) == *old(self),
            !(old(self).mode is Skip) ==> match spec_find_pict_id(*pict) {
                Option::None => r == Result::<Option<String>, Error>::Ok(Option::None)
                    && *final(self) == *old(self),
                Option::Some(id) => match spec_lookup_str(rels.entries@, id) {
                    Option::None => r == Result::<Option<String>, Error>::Ok(Option::None)
                        && *final(self) == *old(self),
                    Option::Some(p) => spec_process_post(*old(self), *final(self), p, r),
                },
            },
    {
        if matches!(&self.mode, ImageHandling::Skip) {
            return Ok(Option::None);
        }
        let blip_id: Option<String> = match &pict.shape_image_id {
            Option::Some(e) => Option::Some(e.clone()),
            Option::None => match &pict.rect_image_id {
                Option::Some(e) => Option::Some(e.clone()),
                Option::None => Option::None,
            },
        };
        let rel_id = match blip_id {
            Option::Some(id) => id,
            Option::None => {
                return Ok(Option::None);
            },
        };
        let image_path = match rels.get(rel_id.as_str()) {
            Option::Some(p) => p,
            Option::None => {
                return Ok(Option::None);
            },
        };
        self.process_image(image_path.as_str())
    }
}

} // verus!
