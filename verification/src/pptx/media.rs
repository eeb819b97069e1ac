//! Media assets: image dimension sniffing and the package media registry.
//!
//! Image dimensions are read straight from the PNG/JPEG headers — they are
//! needed to compute `contain`/`cover` cropping for `a:srcRect`.

use vstd::prelude::*;

use super::package::ContentType;
use crate::error::Error;
use crate::text::{
    chars_of, decimal, last_index, last_position, lower_char, lower_seq, lowercase, push_char,
    push_str, str_eq, usize_to_string,
};

verus! {

/// Pixel dimensions of a raster image.
#[derive(Debug, Clone, Copy, PartialEq, Eq, Structural)]
pub struct ImageSize {
    pub width: u32,
    pub height: u32,
}

/// Big-endian 32-bit value of the four bytes at `i`.
pub open spec fn be32(d: Seq<u8>, i: int) -> u32 {
    (d[i] as u32 * 0x1000000 + d[i + 1] as u32 * 0x10000 + d[i + 2] as u32 * 0x100
        + d[i + 3] as u32) as u32
}

/// Big-endian 16-bit value of the two bytes at `i`.
pub open spec fn be16(d: Seq<u8>, i: int) -> nat {
    (d[i] as nat) * 256 + d[i + 1] as nat
}

/// The PNG signature followed by an `IHDR` chunk type at offset 12.
pub open spec fn is_png_header(d: Seq<u8>) -> bool {
    &&& d.len() >= 24
    &&& d[0] == 0x89 && d[1] == 0x50 && d[2] == 0x4E && d[3] == 0x47
    &&& d[4] == 0x0D && d[5] == 0x0A && d[6] == 0x1A && d[7] == 0x0A
    &&& d[12] == 0x49 && d[13] == 0x48 && d[14] == 0x44 && d[15] == 0x52
}

/// PNG dimensions: the big-endian width and height of the `IHDR` chunk.
pub open spec fn png_spec(d: Seq<u8>) -> Option<ImageSize> {
    if is_png_header(d) {
        Some(ImageSize { width: be32(d, 16), height: be32(d, 20) })
    } else {
        None
    }
}

/// First index at or after `i` whose byte is not `0xFF` (or the length).
pub open spec fn skip_fill(d: Seq<u8>, i: int) -> int
    decreases d.len() - i,
{
    if i < d.len() && d[i] == 0xFF {
        skip_fill(d, i + 1)
    } else {
        i
    }
}

/// Start-of-frame markers (SOF0..SOF15 except DHT, JPG and DAC).
pub open spec fn is_sof(marker: u8) -> bool {
    0xC0 <= marker <= 0xCF && marker != 0xC4 && marker != 0xC8 && marker != 0xCC
}

/// Markers without a length field that the scan steps over.
pub open spec fn is_standalone(marker: u8) -> bool {
    marker == 0x01 || (0xD0 <= marker <= 0xD8)
}

/// The JPEG marker scan from offset `i`: the frame size of the first SOF
/// segment, or `None` at EOI, at a malformed segment or at the end of data.
pub open spec fn jpeg_scan(d: Seq<u8>, i: int) -> Option<ImageSize>
    decreases d.len() - i,
{
    if i < 0 || i + 3 >= d.len() {
        None
    } else {
        let j = skip_fill(d, i);
        if j >= d.len() {
            None
        } else {
            let marker = d[j];
            let k = j + 1;
            if marker == 0xD9 {
                None
            } else if is_standalone(marker) {
                if k > i { jpeg_scan(d, k) } else { None }
            } else if k + 2 > d.len() {
                None
            } else {
                let len = be16(d, k);
                if len < 2 {
                    None
                } else if is_sof(marker) && k + 7 <= d.len() {
                    Some(ImageSize { width: be16(d, k + 5) as u32, height: be16(d, k + 3) as u32 })
                } else if k + len > i && k + len <= d.len() {
                    jpeg_scan(d, k + len)
                } else {
                    None
                }
            }
        }
    }
}

/// JPEG dimensions: an SOI marker followed by the marker scan.
pub open spec fn jpeg_spec(d: Seq<u8>) -> Option<ImageSize> {
    if d.len() < 2 || d[0] != 0xFF || d[1] != 0xD8 {
        None
    } else {
        jpeg_scan(d, 2)
    }
}

/// PNG dimensions when the data is a PNG, else JPEG dimensions.
pub open spec fn sniff_spec(d: Seq<u8>) -> Option<ImageSize> {
    match png_spec(d) {
        Some(size) => Some(size),
        None => jpeg_spec(d),
    }
}

proof fn lemma_skip_fill_bounds(d: Seq<u8>, i: int)
    requires
        0 <= i <= d.len(),
    ensures
        i <= skip_fill(d, i) <= d.len(),
        forall|m: int| i <= m < skip_fill(d, i) ==> d[m] == 0xFF,
        skip_fill(d, i) < d.len() ==> d[skip_fill(d, i)] != 0xFF,
    decreases d.len() - i,
{
    if i < d.len() && d[i] == 0xFF {
        lemma_skip_fill_bounds(d, i + 1);
    }
}

/// A JPEG whose first marker after SOI is a start-of-frame marker (any
/// of `0xC0`..`0xCF` except `0xC4`, `0xC8` and `0xCC`: baseline,
/// progressive, lossless and the rest alike) with a complete frame header
/// has the size stored in that header: height in bytes 7–8, width in bytes
/// 9–10, big-endian.
pub proof fn lemma_jpeg_frame_size(d: Seq<u8>)
    requires
        d.len() >= 11,
        d[0] == 0xFF && d[1] == 0xD8 && d[2] == 0xFF,
        0xC0 <= d[3] <= 0xCF && d[3] != 0xC4 && d[3] != 0xC8 && d[3] != 0xCC,
        d[4] as int * 256 + d[5] as int >= 8,
    ensures
        sniff_spec(d) == Some(
            ImageSize {
                width: (d[9] as int * 256 + d[10] as int) as u32,
                height: (d[7] as int * 256 + d[8] as int) as u32,
            },
        ),
{
    assert(png_spec(d) is None);
    assert(skip_fill(d, 3) == 3);
    assert(skip_fill(d, 2) == 3);
}

/// Sniff PNG or JPEG dimensions from the file bytes.
pub fn sniff_size(data: &[u8]) -> (r: Option<ImageSize>)
    ensures
        r == sniff_spec(data@),
{
    match png_size(data) {
        Some(size) => Some(size),
        None => jpeg_size(data),
    }
}

fn png_size(data: &[u8]) -> (r: Option<ImageSize>)
    ensures
        r == png_spec(data@),
{
    if data.len() >= 24 && data[0] == 0x89 && data[1] == 0x50 && data[2] == 0x4E && data[3] == 0x47
        && data[4] == 0x0D && data[5] == 0x0A && data[6] == 0x1A && data[7] == 0x0A && data[12]
        == 0x49 && data[13] == 0x48 && data[14] == 0x44 && data[15] == 0x52 {
        let width = (data[16] as u32) * 0x1000000 + (data[17] as u32) * 0x10000 + (data[18] as u32)
            * 0x100 + (data[19] as u32);
        let height = (data[20] as u32) * 0x1000000 + (data[21] as u32) * 0x10000 + (data[22] as u32)
            * 0x100 + (data[23] as u32);
        Some(ImageSize { width, height })
    } else {
        None
    }
}

fn jpeg_size(data: &[u8]) -> (r: Option<ImageSize>)
    ensures
        r == jpeg_spec(data@),
{
    if data.len() < 2 || data[0] != 0xFF || data[1] != 0xD8 {
        return None;
    }
    let len = data.len();
    let mut i: usize = 2;
    while i < len && len - i > 3
        invariant
            len == data@.len(),
            2 <= i <= len,
            jpeg_spec(data@) == jpeg_scan(data@, i as int),
        decreases len - i,
    {
        let ghost i0 = i as int;
        proof {
            lemma_skip_fill_bounds(data@, i as int);
        }
        let mut j = i;
        while j < len && data[j] == 0xFF
            invariant
                len == data@.len(),
                i0 <= j <= len,
                skip_fill(data@, i0) == skip_fill(data@, j as int),
            decreases len - j,
        {
            j = j + 1;
        }
        if j >= len {
            return None;
        }
        let marker = data[j];
        let k = j + 1;
        if marker == 0xD9 {
            return None;
        }
        if marker == 0x01 || (0xD0 <= marker && marker <= 0xD8) {
            i = k;
            continue;
        }
        if len - k < 2 {
            return None;
        }
        let seg = (data[k] as usize) * 256 + (data[k + 1] as usize);
        if seg < 2 {
            return None;
        }
        let sof = 0xC0 <= marker && marker <= 0xCF && marker != 0xC4 && marker != 0xC8 && marker
            != 0xCC;
        if sof && len - k >= 7 {
            let height = (data[k + 3] as u32) * 256 + (data[k + 4] as u32);
            let width = (data[k + 5] as u32) * 256 + (data[k + 6] as u32);
            return Some(ImageSize { width, height });
        }
        if seg > len - k {
            // The next segment starts beyond the data: the scan ends.
            return None;
        }
        i = k + seg;
    }
    None
}

/// The sources in order of first use, each once.
pub open spec fn first_uses(srcs: Seq<Seq<char>>) -> Seq<Seq<char>>
    decreases srcs.len(),
{
    if srcs.len() == 0 {
        Seq::empty()
    } else {
        let prev = first_uses(srcs.drop_last());
        if prev.contains(srcs.last()) {
            prev
        } else {
            prev.push(srcs.last())
        }
    }
}

pub open spec fn source_views(srcs: Seq<String>) -> Seq<Seq<char>> {
    srcs.map_values(|s: String| s@)
}

/// The media sources a part uses, in order of first use and without
/// repeats, from the sources its background and elements name in order.
pub fn media_in_first_use(srcs: &Vec<String>) -> (r: Vec<String>)
    ensures
        source_views(r@) == first_uses(source_views(srcs@)),
{
    let ghost all = source_views(srcs@);
    let mut out: Vec<String> = Vec::new();
    let mut i: usize = 0;
    assert(source_views(out@) =~= first_uses(all.take(0)));
    while i < srcs.len()
        invariant
            i <= srcs.len(),
            all == source_views(srcs@),
            source_views(out@) == first_uses(all.take(i as int)),
        decreases srcs.len() - i,
    {
        let src = &srcs[i];
        assert(all.take(i + 1).drop_last() =~= all.take(i as int));
        assert(all.take(i + 1).last() == src@);
        let mut seen = false;
        let mut k: usize = 0;
        while k < out.len()
            invariant
                k <= out.len(),
                seen == (exists|j: int| 0 <= j < k && source_views(out@)[j] == src@),
            decreases out.len() - k,
        {
            assert(source_views(out@)[k as int] == out@[k as int]@);
            if str_eq(out[k].as_str(), src.as_str()) {
                seen = true;
            }
            k = k + 1;
            assert(seen == (exists|j: int| 0 <= j < k && source_views(out@)[j] == src@)) by {
                if !seen {
                    assert forall|j: int| 0 <= j < k implies source_views(out@)[j] != src@ by {
                        if j == k - 1 {
                        }
                    }
                }
            }
        }
        let ghost prev = source_views(out@);
        assert(seen == prev.contains(src@));
        if !seen {
            out.push(src.clone());
            assert(source_views(out@) =~= prev.push(src@));
        }
        i = i + 1;
    }
    assert(all.take(i as int) =~= all);
    out
}

/// Each source occurs once among the first uses, and every source used
/// is among them.
pub proof fn lemma_first_uses(srcs: Seq<Seq<char>>)
    ensures
        first_uses(srcs).no_duplicates(),
        forall|j: int| 0 <= j < srcs.len() ==> first_uses(srcs).contains(#[trigger] srcs[j]),
        forall|j: int| 0 <= j < first_uses(srcs).len() ==> srcs.contains(#[trigger] first_uses(srcs)[j]),
    decreases srcs.len(),
{
    if srcs.len() > 0 {
        let init = srcs.drop_last();
        lemma_first_uses(init);
        let prev = first_uses(init);
        assert forall|j: int| 0 <= j < srcs.len() implies first_uses(srcs).contains(#[trigger] srcs[j]) by {
            if j < srcs.len() - 1 {
                assert(init[j] == srcs[j]);
                assert(prev.contains(init[j]));
                if !prev.contains(srcs.last()) {
                    let w = choose|w: int| 0 <= w < prev.len() && prev[w] == init[j];
                    assert(prev.push(srcs.last())[w] == srcs[j]);
                }
            } else {
                if !prev.contains(srcs.last()) {
                    assert(prev.push(srcs.last())[prev.len() as int] == srcs.last());
                }
            }
        }
        assert forall|j: int| 0 <= j < first_uses(srcs).len() implies srcs.contains(#[trigger] first_uses(srcs)[j]) by {
            if j < prev.len() {
                assert(first_uses(srcs)[j] == prev[j]);
                assert(init.contains(prev[j]));
                let w = choose|w: int| 0 <= w < init.len() && init[w] == prev[j];
                assert(srcs[w] == init[w]);
            } else {
                assert(first_uses(srcs)[j] == srcs.last());
                assert(srcs[srcs.len() - 1] == srcs.last());
            }
        }
    }
}

} // verus!

verus! {

/// The final path component of `path` (the text after its last `/`).
pub open spec fn file_name_of(path: Seq<char>) -> Seq<char> {
    match last_index(path, '/') {
        Some(i) => path.skip(i + 1),
        None => path,
    }
}

/// The extension of a path's final component: the text after its last
/// `.`, absent when there is no `.`, when the only `.` starts the name, or
/// for the `..` component.
pub open spec fn extension_of(path: Seq<char>) -> Option<Seq<char>> {
    let name = file_name_of(path);
    if name == seq!['.', '.'] {
        None
    } else {
        match last_index(name, '.') {
            Some(i) => if i == 0 {
                None
            } else {
                Some(name.skip(i + 1))
            },
            None => None,
        }
    }
}

/// One raster part staged for the OPC package.
pub struct MediaPart {
    /// Source path inside the deck, as the slides name it (used for deduplication).
    pub src: String,
    /// Path in the ZIP archive, e.g. `ppt/media/image3.png`.
    pub package_path: String,
    pub extension: String,
    pub content_type: ContentType,
    pub data: Vec<u8>,
    pub size: ImageSize,
}

/// `ppt/media/image{n}.{ext}` for the part at (zero-based) `index`.
pub open spec fn media_path(index: int, ext: Seq<char>) -> Seq<char> {
    "ppt/media/image"@ + decimal((index + 1) as nat) + seq!['.'] + ext
}

/// The index of the part registered for `src`.
pub open spec fn find_src(parts: Seq<MediaPart>, src: Seq<char>) -> Option<int>
    decreases parts.len(),
{
    if parts.len() == 0 {
        None
    } else {
        match find_src(parts.drop_last(), src) {
            Some(i) => Some(i),
            None => if parts.last().src@ == src {
                Some(parts.len() - 1)
            } else {
                None
            },
        }
    }
}

/// Message for a source whose path has no extension.
pub open spec fn no_extension_message(src: Seq<char>) -> Seq<char> {
    "media `"@ + src + "` has no image extension (png/jpg/jpeg)"@
}

/// Message for a source with an extension other than png/jpg/jpeg.
pub open spec fn bad_extension_message(src: Seq<char>, ext: Seq<char>) -> Seq<char> {
    "media `"@ + src + "` uses unsupported image extension `"@ + ext + "` (png/jpg/jpeg)"@
}

/// Message for data that is neither a PNG nor a JPEG with a frame header.
pub open spec fn unreadable_message(src: Seq<char>) -> Seq<char> {
    "media `"@ + src + "` is not a readable PNG/JPEG image"@
}

/// The accepted media extensions.
pub open spec fn is_image_extension(ext: Seq<char>) -> bool {
    ext == "png"@ || ext == "jpg"@ || ext == "jpeg"@
}

/// The distinct extensions of the parts, in order of first use.
pub open spec fn distinct_extensions(parts: Seq<MediaPart>) -> Seq<Seq<char>>
    decreases parts.len(),
{
    if parts.len() == 0 {
        Seq::empty()
    } else {
        let prev = distinct_extensions(parts.drop_last());
        if prev.contains(parts.last().extension@) {
            prev
        } else {
            prev.push(parts.last().extension@)
        }
    }
}

/// Deduplicates and numbers the media parts referenced by a build.
pub struct MediaRegistry {
    root_dir: String,
    parts: Vec<MediaPart>,
}

impl MediaRegistry {
    /// Every part sits at `ppt/media/image{n}.{ext}` under its number, has
    /// an accepted (lowercase) extension with the matching content type and
    /// the sniffed size of its data, and no source is registered twice.
    #[verifier::type_invariant]
    closed spec fn wf(self) -> bool {
        &&& forall|i: int|
            0 <= i < self.parts@.len() ==> {
                let p = #[trigger] self.parts@[i];
                &&& p.package_path@ == media_path(i, p.extension@)
                &&& is_image_extension(p.extension@)
                &&& p.content_type == (if p.extension@ == "png"@ {
                    ContentType::ImagePng
                } else {
                    ContentType::ImageJpeg
                })
                &&& sniff_spec(p.data@) == Some(p.size)
            }
        &&& forall|i: int, j: int|
            0 <= i < j < self.parts@.len() ==> self.parts@[i].src@ != self.parts@[j].src@
    }

    /// The staged parts, in registration order.
    pub closed spec fn parts_view(self) -> Seq<MediaPart> {
        self.parts@
    }

    /// The deck directory the sources are relative to.
    pub closed spec fn root_view(self) -> Seq<char> {
        self.root_dir@
    }

    pub fn new(root_dir: &str) -> (r: Self)
        ensures
            r.parts_view().len() == 0,
            r.root_view() == root_dir@,
    {
        MediaRegistry { root_dir: String::from_str(root_dir), parts: Vec::new() }
    }

    /// The deck directory the sources are relative to.
    pub fn root_dir(&self) -> (r: &str)
        ensures
            r@ == self.root_view(),
    {
        self.root_dir.as_str()
    }

    /// The global part index already assigned to `src`, if any.
    pub fn lookup(&self, src: &str) -> (r: Option<usize>)
        ensures
            r matches Some(i) ==> find_src(self.parts_view(), src@) == Some(i as int),
            r is None ==> find_src(self.parts_view(), src@) is None,
    {
        let mut i: usize = 0;
        while i < self.parts.len()
            invariant
                i <= self.parts@.len(),
                find_src(self.parts@.take(i as int), src@) is None,
            decreases self.parts.len() - i,
        {
            assert(self.parts@.take(i + 1).drop_last() =~= self.parts@.take(i as int));
            if str_eq(self.parts[i].src.as_str(), src) {
                proof {
                    lemma_find_src_prefix(self.parts@, (i + 1) as int, src@);
                }
                return Some(i);
            }
            i = i + 1;
        }
        assert(self.parts@.take(i as int) =~= self.parts@);
        None
    }

    /// Register `src` with the bytes read from it and return its global
    /// part index. A source already registered keeps its index (the bytes
    /// are not looked at again); a new one is checked for an accepted
    /// extension and readable image data, and numbered after the others.
    pub fn register(&mut self, src: &str, data: Vec<u8>) -> (r: Result<usize, Error>)
        requires
            old(self).parts_view().len() < usize::MAX,
        ensures
            final(self).root_view() == old(self).root_view(),
            r is Err ==> final(self).parts_view() == old(self).parts_view() && distinct_extensions(
                final(self).parts_view(),
            ) == distinct_extensions(old(self).parts_view()),
            r matches Ok(i) ==> i < final(self).parts_view().len() && final(self).parts_view()[i as int].src@ == src@,
            find_src(old(self).parts_view(), src@) matches Some(i) ==> r == Ok::<usize, Error>(
                i as usize,
            ) && final(self).parts_view() == old(self).parts_view(),
            find_src(old(self).parts_view(), src@) is None ==> match extension_of(src@) {
                None => final(self).parts_view() == old(self).parts_view() && (r matches Err(
                    Error::Unsupported(m),
                ) && m@ == no_extension_message(src@)),
                Some(raw) => {
                    let ext = lower_seq(raw);
                    if !is_image_extension(ext) {
                        final(self).parts_view() == old(self).parts_view() && (r matches Err(
                            Error::Unsupported(m),
                        ) && m@ == bad_extension_message(src@, ext))
                    } else {
                        match sniff_spec(data@) {
                            None => final(self).parts_view() == old(self).parts_view() && (r matches Err(
                                Error::Unsupported(m),
                            ) && m@ == unreadable_message(src@)),
                            Some(size) => {
                                let n = old(self).parts_view().len();
                                let p = final(self).parts_view()[n as int];
                                &&& r == Ok::<usize, Error>(n as usize)
                                &&& final(self).parts_view().len() == n + 1
                                &&& final(self).parts_view().take(n as int) == old(self).parts_view()
                                &&& p.src@ == src@
                                &&& p.extension@ == ext
                                &&& p.package_path@ == media_path(n as int, ext)
                                &&& p.content_type == (if ext == "png"@ {
                                    ContentType::ImagePng
                                } else {
                                    ContentType::ImageJpeg
                                })
                                &&& p.data@ == data@
                                &&& p.size == size
                            },
                        }
                    }
                },
            },
    {
        proof {
            use_type_invariant(&*self);
        }
        if let Some(index) = self.lookup(src) {
            proof {
                lemma_find_src_found(self.parts_view(), src@);
            }
            return Ok(index);
        }
        let ext = match path_extension(src) {
            Some(raw) => lowercase(&raw),
            None => {
                let mut m = String::new();
                push_str(&mut m, "media `");
                push_str(&mut m, src);
                push_str(&mut m, "` has no image extension (png/jpg/jpeg)");
                return Err(Error::Unsupported(m));
            },
        };
        proof {
            reveal_strlit("png");
            reveal_strlit("jpg");
            reveal_strlit("jpeg");
        }
        let ghost ext_view = ext@;
        let is_png = str_eq(ext.as_str(), "png");
        if !is_png && !str_eq(ext.as_str(), "jpg") && !str_eq(ext.as_str(), "jpeg") {
            let mut m = String::new();
            push_str(&mut m, "media `");
            push_str(&mut m, src);
            push_str(&mut m, "` uses unsupported image extension `");
            push_str(&mut m, ext.as_str());
            push_str(&mut m, "` (png/jpg/jpeg)");
            return Err(Error::Unsupported(m));
        }
        let content_type = if is_png {
            ContentType::ImagePng
        } else {
            ContentType::ImageJpeg
        };
        let size = match sniff_size(data.as_slice()) {
            Some(size) => size,
            None => {
                let mut m = String::new();
                push_str(&mut m, "media `");
                push_str(&mut m, src);
                push_str(&mut m, "` is not a readable PNG/JPEG image");
                return Err(Error::Unsupported(m));
            },
        };
        let index = self.parts.len();
        let mut package_path = String::new();
        push_str(&mut package_path, "ppt/media/image");
        let number = usize_to_string(index + 1);
        push_str(&mut package_path, number.as_str());
        push_char(&mut package_path, '.');
        push_str(&mut package_path, ext.as_str());
        let part = MediaPart {
            src: String::from_str(src),
            package_path,
            extension: ext,
            content_type,
            data,
            size,
        };
        let ghost old_parts = self.parts@;
        let mut parts: Vec<MediaPart> = Vec::new();
        std::mem::swap(&mut parts, &mut self.parts);
        parts.push(part);
        proof {
            assert(parts@.take(index as int) =~= old_parts);
            lemma_find_src_none_distinct(old_parts, src@);
            reveal_strlit("ppt/media/image");
            assert(parts@[index as int].package_path@ =~= media_path(index as int, ext_view));
        }
        self.parts = parts;
        Ok(index)
    }

    /// The registered part at `index`.
    pub fn part(&self, index: usize) -> (p: &MediaPart)
        requires
            index < self.parts_view().len(),
        ensures
            *p == self.parts_view()[index as int],
            p.package_path@ == media_path(index as int, p.extension@),
            is_image_extension(p.extension@),
    {
        proof {
            use_type_invariant(self);
        }
        &self.parts[index]
    }

    /// Consume the registry and return all staged media parts.
    pub fn into_parts(self) -> (v: Vec<MediaPart>)
        ensures
            v@ == self.parts_view(),
    {
        self.parts
    }

    /// Unique lowercase extensions used (`png` / `jpg` / `jpeg`), in order
    /// of first use.
    pub fn extensions(&self) -> (seen: Vec<String>)
        ensures
            seen@.map_values(|s: String| s@) == distinct_extensions(self.parts_view()),
    {
        let mut seen: Vec<String> = Vec::new();
        let mut i: usize = 0;
        while i < self.parts.len()
            invariant
                i <= self.parts@.len(),
                seen@.map_values(|s: String| s@) == distinct_extensions(self.parts@.take(i as int)),
            decreases self.parts.len() - i,
        {
            let ext = self.parts[i].extension.as_str();
            let mut found = false;
            let mut j: usize = 0;
            while j < seen.len()
                invariant
                    j <= seen@.len(),
                    found <==> exists|k: int| 0 <= k < j && seen@[k]@ == ext@,
                decreases seen.len() - j,
            {
                if str_eq(seen[j].as_str(), ext) {
                    found = true;
                }
                j = j + 1;
            }
            let ghost before = seen@;
            assert(self.parts@.take(i + 1).drop_last() =~= self.parts@.take(i as int));
            proof {
                let views = before.map_values(|s: String| s@);
                assert(found <==> views.contains(ext@)) by {
                    if found {
                        let k = choose|k: int| 0 <= k < j && seen@[k]@ == ext@;
                        assert(views[k] == ext@);
                    }
                    if views.contains(ext@) {
                        let k = choose|k: int| 0 <= k < views.len() && views[k] == ext@;
                        assert(seen@[k]@ == ext@);
                    }
                }
            }
            if !found {
                seen.push(String::from_str(ext));
                assert(seen@.map_values(|s: String| s@) =~= before.map_values(|s: String| s@).push(ext@));
            }
            i = i + 1;
        }
        assert(self.parts@.take(i as int) =~= self.parts@);
        seen
    }
}

proof fn lemma_find_src_prefix(parts: Seq<MediaPart>, n: int, src: Seq<char>)
    requires
        0 < n <= parts.len(),
        find_src(parts.take(n - 1), src) is None,
        parts[n - 1].src@ == src,
    ensures
        find_src(parts, src) == Some(n - 1),
    decreases parts.len(),
{
    if n == parts.len() {
        assert(parts.take(n - 1) =~= parts.drop_last());
    } else {
        assert(parts.drop_last().take(n - 1) =~= parts.take(n - 1));
        assert(parts.drop_last()[n - 1] == parts[n - 1]);
        lemma_find_src_prefix(parts.drop_last(), n, src);
    }
}

proof fn lemma_find_src_found(parts: Seq<MediaPart>, src: Seq<char>)
    requires
        find_src(parts, src) is Some,
    ensures
        0 <= find_src(parts, src)->0 < parts.len(),
        parts[find_src(parts, src)->0].src@ == src,
    decreases parts.len(),
{
    if parts.len() > 0 && find_src(parts.drop_last(), src) is Some {
        lemma_find_src_found(parts.drop_last(), src);
    }
}

proof fn lemma_find_src_none_distinct(parts: Seq<MediaPart>, src: Seq<char>)
    requires
        find_src(parts, src) is None,
    ensures
        forall|i: int| 0 <= i < parts.len() ==> parts[i].src@ != src,
    decreases parts.len(),
{
    if parts.len() > 0 {
        lemma_find_src_none_distinct(parts.drop_last(), src);
        assert forall|i: int| 0 <= i < parts.len() implies parts[i].src@ != src by {
            if i < parts.len() - 1 {
                assert(parts.drop_last()[i] == parts[i]);
            }
        }
    }
}

/// The extension of the final component of `path` (see [`extension_of`]).
pub fn path_extension(path: &str) -> (r: Option<String>)
    ensures
        r matches Some(e) ==> extension_of(path@) == Some(e@),
        r is None ==> extension_of(path@) is None,
{
    let cs = chars_of(path);
    let slash = last_position(&cs, '/');
    let start = match slash {
        Some(i) => {
            assert(i < cs.len());
            i + 1
        },
        None => 0,
    };
    let mut name: Vec<char> = Vec::new();
    let mut k = start;
    while k < cs.len()
        invariant
            start <= k <= cs.len(),
            name@ == cs@.subrange(start as int, k as int),
        decreases cs.len() - k,
    {
        name.push(cs[k]);
        k = k + 1;
    }
    proof {
        assert(cs@ == path@);
        match last_index(path@, '/') {
            Some(i) => assert(name@ =~= path@.skip(i + 1)),
            None => assert(name@ =~= path@),
        }
    }
    if name.len() == 2 && name[0] == '.' && name[1] == '.' {
        assert(name@ =~= seq!['.', '.']);
        return None;
    }
    match last_position(&name, '.') {
        Some(0) => None,
        Some(i) => {
            let mut ext = String::new();
            let mut m = i + 1;
            while m < name.len()
                invariant
                    i + 1 <= m <= name.len(),
                    ext@ == name@.subrange(i + 1, m as int),
                decreases name.len() - m,
            {
                push_char(&mut ext, name[m]);
                assert(name@.subrange(i + 1, m + 1) =~= name@.subrange(i + 1, m as int).push(name@[m as int]));
                m = m + 1;
            }
            assert(ext@ =~= name@.skip(i + 1));
            Some(ext)
        },
        None => None,
    }
}

} // verus!
