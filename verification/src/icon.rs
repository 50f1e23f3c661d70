//! Windows icon files (ICO) and the icon resources built from them.
//!
//! An ICO file starts with a six-byte header (reserved 0, type 1, image
//! count), followed by one sixteen-byte directory entry per image: eight bytes
//! of geometry fields, the image's byte size and its byte offset in the file.
//! An executable stores the same images as separate icon resources, plus one
//! group resource whose entries repeat the geometry fields and name each image
//! by its resource id.

use vstd::prelude::*;

verus! {

/// Little-endian 16-bit value of `b[off..off + 2]`.
pub open spec fn le16(b: Seq<u8>, off: int) -> int {
    b[off] as int + 256 * (b[off + 1] as int)
}

/// Little-endian 32-bit value of `b[off..off + 4]`.
pub open spec fn le32(b: Seq<u8>, off: int) -> int {
    b[off] as int + 256 * (b[off + 1] as int) + 65536 * (b[off + 2] as int) + 16777216 * (
    b[off + 3] as int)
}

/// What `read_u16` gives: the value when two bytes are there.
pub open spec fn read_u16_spec(b: Seq<u8>, off: int) -> Option<u16> {
    if off + 2 <= b.len() {
        Some(le16(b, off) as u16)
    } else {
        None
    }
}

/// What `read_u32` gives: the value when four bytes are there.
pub open spec fn read_u32_spec(b: Seq<u8>, off: int) -> Option<u32> {
    if off + 4 <= b.len() {
        Some(le32(b, off) as u32)
    } else {
        None
    }
}

/// Reads a little-endian `u16` at `offset`, or `None` past the end.
pub fn read_u16(bytes: &[u8], offset: usize) -> (r: Option<u16>)
    requires
        offset + 2 <= usize::MAX,
    ensures
        r == read_u16_spec(bytes@, offset as int),
        r matches Some(v) ==> v as int == le16(bytes@, offset as int),
{
    if offset + 2 <= bytes.len() {
        let lo: u16 = bytes[offset] as u16;
        let hi: u16 = bytes[offset + 1] as u16;
        Some(lo + hi * 256)
    } else {
        None
    }
}

/// Reads a little-endian `u32` at `offset`, or `None` past the end.
pub fn read_u32(bytes: &[u8], offset: usize) -> (r: Option<u32>)
    requires
        offset + 4 <= usize::MAX,
    ensures
        r == read_u32_spec(bytes@, offset as int),
        r matches Some(v) ==> v as int == le32(bytes@, offset as int),
{
    if offset + 4 <= bytes.len() {
        let b0: u32 = bytes[offset] as u32;
        let b1: u32 = bytes[offset + 1] as u32;
        let b2: u32 = bytes[offset + 2] as u32;
        let b3: u32 = bytes[offset + 3] as u32;
        Some(b0 + b1 * 256 + b2 * 65536 + b3 * 16777216)
    } else {
        None
    }
}

/// Why an icon file was refused.
#[derive(Clone, Copy, Debug, PartialEq, Eq, Structural)]
pub enum IconError {
    /// The header is not that of an icon file (reserved 0, type 1).
    NotAnIcon,
    /// The file ends before the image count.
    TruncatedHeader,
    /// The count is zero, or the directory is cut short.
    NoCompleteEntries,
    /// A directory entry ends before its size field.
    TruncatedSize,
    /// A directory entry ends before its offset field.
    TruncatedOffset,
    /// Offset plus size of an image does not fit in a `usize`.
    RangeOverflow,
    /// An image's bytes run past the end of the file.
    FrameOutsideFile,
}

impl IconError {
    /// The message the tool prints for this error.
    pub fn message(&self) -> (m: &'static str)
        ensures
            m@ == icon_error_message(*self),
    {
        match self {
            IconError::NotAnIcon => "not a Windows icon file",
            IconError::TruncatedHeader => "truncated icon header",
            IconError::NoCompleteEntries => "icon has no complete directory entries",
            IconError::TruncatedSize => "truncated icon size",
            IconError::TruncatedOffset => "truncated icon offset",
            IconError::RangeOverflow => "icon frame range overflow",
            IconError::FrameOutsideFile => "icon frame lies outside the file",
        }
    }
}

/// The message of each error.
pub open spec fn icon_error_message(e: IconError) -> Seq<char> {
    match e {
        IconError::NotAnIcon => "not a Windows icon file"@,
        IconError::TruncatedHeader => "truncated icon header"@,
        IconError::NoCompleteEntries => "icon has no complete directory entries"@,
        IconError::TruncatedSize => "truncated icon size"@,
        IconError::TruncatedOffset => "truncated icon offset"@,
        IconError::RangeOverflow => "icon frame range overflow"@,
        IconError::FrameOutsideFile => "icon frame lies outside the file"@,
    }
}

/// One image of an icon file: its eight geometry bytes and its data.
pub struct IconFrame {
    pub directory_fields: [u8; 8],
    pub data: Vec<u8>,
}

impl IconFrame {
    pub open spec fn view(&self) -> (Seq<u8>, Seq<u8>) {
        (self.directory_fields@, self.data@)
    }
}

/// Number of images the header announces.
pub open spec fn ico_count(b: Seq<u8>) -> int {
    le16(b, 4)
}

/// Start of the `i`-th directory entry.
pub open spec fn ico_entry(i: int) -> int {
    6 + 16 * i
}

/// Byte size of the `i`-th image.
pub open spec fn ico_frame_size(b: Seq<u8>, i: int) -> int {
    le32(b, ico_entry(i) + 8)
}

/// Byte offset of the `i`-th image.
pub open spec fn ico_frame_offset(b: Seq<u8>, i: int) -> int {
    le32(b, ico_entry(i) + 12)
}

/// End of the `i`-th image.
pub open spec fn ico_frame_end(b: Seq<u8>, i: int) -> int {
    ico_frame_offset(b, i) + ico_frame_size(b, i)
}

/// The `i`-th image lies within the file.
pub open spec fn ico_frame_fits(b: Seq<u8>, i: int) -> bool {
    ico_frame_end(b, i) <= usize::MAX && ico_frame_end(b, i) <= b.len()
}

/// The error of the header and directory, if any.
pub open spec fn ico_header_error(b: Seq<u8>) -> Option<IconError> {
    if !(b.len() >= 4 && le16(b, 0) == 0 && le16(b, 2) == 1) {
        Some(IconError::NotAnIcon)
    } else if b.len() < 6 {
        Some(IconError::TruncatedHeader)
    } else if ico_count(b) == 0 || b.len() < 6 + 16 * ico_count(b) {
        Some(IconError::NoCompleteEntries)
    } else {
        None
    }
}

/// Index of the first image from `i` on that does not lie within the file
/// (`n` if there is none).
pub open spec fn ico_first_bad(b: Seq<u8>, i: int, n: int) -> int
    decreases n - i,
{
    if i >= n {
        n
    } else if !ico_frame_fits(b, i) {
        i
    } else {
        ico_first_bad(b, i + 1, n)
    }
}

/// The error that an image which does not lie within the file gives.
pub open spec fn ico_frame_error(b: Seq<u8>, i: int) -> IconError {
    if ico_frame_end(b, i) > usize::MAX {
        IconError::RangeOverflow
    } else {
        IconError::FrameOutsideFile
    }
}

/// The file is a well-formed icon file.
pub open spec fn ico_valid(b: Seq<u8>) -> bool {
    &&& ico_header_error(b) is None
    &&& forall|i: int| 0 <= i < ico_count(b) ==> #[trigger] ico_frame_fits(b, i)
}

/// The error reported for a file that is not a well-formed icon file: the
/// header's, else that of the first image outside the file.
pub open spec fn ico_error(b: Seq<u8>) -> IconError {
    match ico_header_error(b) {
        Some(e) => e,
        None => ico_frame_error(b, ico_first_bad(b, 0, ico_count(b))),
    }
}

/// The images of a well-formed icon file, each as (geometry, data).
pub open spec fn ico_frames(b: Seq<u8>) -> Seq<(Seq<u8>, Seq<u8>)> {
    Seq::new(
        ico_count(b) as nat,
        |i: int|
            (
                b.subrange(ico_entry(i), ico_entry(i) + 8),
                b.subrange(ico_frame_offset(b, i), ico_frame_end(b, i)),
            ),
    )
}

proof fn lemma_first_bad_skip(b: Seq<u8>, i: int, n: int)
    requires
        0 <= i < n,
        ico_frame_fits(b, i),
    ensures
        ico_first_bad(b, i, n) == ico_first_bad(b, i + 1, n),
{
}

proof fn lemma_first_bad_none(b: Seq<u8>, i: int, n: int)
    requires
        0 <= i <= n,
        forall|j: int| i <= j < n ==> #[trigger] ico_frame_fits(b, j),
    ensures
        ico_first_bad(b, i, n) == n,
    decreases n - i,
{
    if i < n {
        assert(ico_frame_fits(b, i));
        lemma_first_bad_none(b, i + 1, n);
    }
}

/// Copies `bytes[from..to]` into a new vector.
fn copy_range(bytes: &[u8], from: usize, to: usize) -> (v: Vec<u8>)
    requires
        from <= to <= bytes.len(),
    ensures
        v@ == bytes@.subrange(from as int, to as int),
{
    let mut v: Vec<u8> = Vec::with_capacity(to - from);
    let mut k: usize = from;
    while k < to
        invariant
            from <= k <= to <= bytes.len(),
            v@ == bytes@.subrange(from as int, k as int),
        decreases to - k,
    {
        v.push(bytes[k]);
        k = k + 1;
    }
    v
}

/// Parses an icon file into its images.
pub fn parse_ico(bytes: &[u8]) -> (r: Result<Vec<IconFrame>, IconError>)
    ensures
        r is Ok <==> ico_valid(bytes@),
        r matches Ok(frames) ==> frames@.len() == ico_count(bytes@) && forall|i: int|
            0 <= i < frames@.len() ==> #[trigger] frames@[i]@ == ico_frames(bytes@)[i],
        r matches Err(e) ==> e == ico_error(bytes@),
{
    let ghost b = bytes@;
    let h0 = read_u16(bytes, 0);
    let h1 = read_u16(bytes, 2);
    if h0 != Some(0u16) || h1 != Some(1u16) {
        return Err(IconError::NotAnIcon);
    }
    let count: usize = match read_u16(bytes, 4) {
        Some(c) => c as usize,
        None => {
            return Err(IconError::TruncatedHeader);
        },
    };
    if count == 0 || bytes.len() < 6 + count * 16 {
        return Err(IconError::NoCompleteEntries);
    }
    let mut frames: Vec<IconFrame> = Vec::with_capacity(count);
    let mut index: usize = 0;
    while index < count
        invariant
            ico_header_error(b) is None,
            b == bytes@,
            count == ico_count(b),
            6 + 16 * count <= bytes.len(),
            0 <= index <= count,
            frames@.len() == index,
            forall|j: int| 0 <= j < index ==> #[trigger] ico_frame_fits(b, j),
            forall|j: int| 0 <= j < index ==> #[trigger] frames@[j]@ == ico_frames(b)[j],
            ico_first_bad(b, 0, count as int) == ico_first_bad(b, index as int, count as int),
        decreases count - index,
    {
        let entry: usize = 6 + index * 16;
        let directory_fields: [u8; 8] = [
            bytes[entry],
            bytes[entry + 1],
            bytes[entry + 2],
            bytes[entry + 3],
            bytes[entry + 4],
            bytes[entry + 5],
            bytes[entry + 6],
            bytes[entry + 7],
        ];
        let size: usize = match read_u32(bytes, entry + 8) {
            Some(s) => s as usize,
            None => {
                return Err(IconError::TruncatedSize);
            },
        };
        let offset: usize = match read_u32(bytes, entry + 12) {
            Some(o) => o as usize,
            None => {
                return Err(IconError::TruncatedOffset);
            },
        };
        let end: usize = match offset.checked_add(size) {
            Some(e) => e,
            None => {
                proof {
                    assert(!ico_frame_fits(b, index as int));
                }
                return Err(IconError::RangeOverflow);
            },
        };
        if end > bytes.len() {
            proof {
                assert(!ico_frame_fits(b, index as int));
            }
            return Err(IconError::FrameOutsideFile);
        }
        let data = copy_range(bytes, offset, end);
        let frame = IconFrame { directory_fields, data };
        proof {
            assert(ico_frame_fits(b, index as int));
            lemma_first_bad_skip(b, index as int, count as int);
            assert(directory_fields@ =~= b.subrange(entry as int, entry as int + 8));
        }
        frames.push(frame);
        index = index + 1;
    }
    proof {
        lemma_first_bad_none(b, 0, count as int);
    }
    Ok(frames)
}

/// Little-endian bytes of a `u16`.
pub open spec fn u16_le(v: u16) -> Seq<u8> {
    seq![(v % 256) as u8, (v / 256) as u8]
}

/// Little-endian bytes of a `u32`.
pub open spec fn u32_le(v: u32) -> Seq<u8> {
    seq![(v % 256) as u8, ((v / 256) % 256) as u8, ((v / 65536) % 256) as u8, (v / 16777216) as u8]
}

/// Appends the little-endian bytes of `v`.
pub fn push_u16_le(out: &mut Vec<u8>, v: u16)
    ensures
        final(out)@ == old(out)@ + u16_le(v),
{
    out.push((v % 256) as u8);
    out.push((v / 256) as u8);
    assert(final(out)@ =~= old(out)@ + u16_le(v));
}

/// Appends the little-endian bytes of `v`.
pub fn push_u32_le(out: &mut Vec<u8>, v: u32)
    ensures
        final(out)@ == old(out)@ + u32_le(v),
{
    out.push((v % 256) as u8);
    out.push(((v / 256) % 256) as u8);
    out.push(((v / 65536) % 256) as u8);
    out.push((v / 16777216) as u8);
    assert(final(out)@ =~= old(out)@ + u32_le(v));
}

/// Appends all of `bytes`.
pub fn push_bytes(out: &mut Vec<u8>, bytes: &[u8])
    ensures
        final(out)@ == old(out)@ + bytes@,
{
    let ghost start = out@;
    let mut k: usize = 0;
    while k < bytes.len()
        invariant
            k <= bytes.len(),
            out@ == start + bytes@.subrange(0, k as int),
        decreases bytes.len() - k,
    {
        out.push(bytes[k]);
        k = k + 1;
        assert(out@ =~= start + bytes@.subrange(0, k as int));
    }
    assert(bytes@.subrange(0, bytes@.len() as int) =~= bytes@);
}

/// The views of a slice of images.
pub open spec fn frame_views(frames: Seq<IconFrame>) -> Seq<(Seq<u8>, Seq<u8>)> {
    frames.map_values(|f: IconFrame| f@)
}

/// The group-resource entry of image `i`: its geometry bytes, its byte length
/// and its resource id `i + 1`.
pub open spec fn group_entry(f: (Seq<u8>, Seq<u8>), i: int) -> Seq<u8> {
    f.0 + u32_le(f.1.len() as u32) + u16_le((i + 1) as u16)
}

/// The entries of the first `k` images.
pub open spec fn group_entries(fs: Seq<(Seq<u8>, Seq<u8>)>, k: int) -> Seq<u8>
    decreases k,
{
    if k <= 0 {
        Seq::empty()
    } else {
        group_entries(fs, k - 1) + group_entry(fs[k - 1], k - 1)
    }
}

/// The group resource of a list of images: header (0, 1, count) and one
/// entry per image.
pub open spec fn group_icon_spec(fs: Seq<(Seq<u8>, Seq<u8>)>) -> Seq<u8> {
    u16_le(0) + u16_le(1) + u16_le(fs.len() as u16) + group_entries(fs, fs.len() as int)
}

proof fn lemma_group_entries_len(fs: Seq<(Seq<u8>, Seq<u8>)>, k: int)
    requires
        0 <= k <= fs.len(),
        forall|i: int| 0 <= i < fs.len() ==> (#[trigger] fs[i]).0.len() == 8,
    ensures
        group_entries(fs, k).len() == 14 * k,
    decreases k,
{
    if k > 0 {
        lemma_group_entries_len(fs, k - 1);
        assert(fs[k - 1].0.len() == 8);
    }
}

/// Builds the group-icon resource that names each image by its resource id.
pub fn group_icon_data(frames: &[IconFrame]) -> (group: Vec<u8>)
    ensures
        group@ == group_icon_spec(frame_views(frames@)),
        group@.len() == 6 + 14 * frames@.len(),
{
    let ghost fs = frame_views(frames@);
    let mut group: Vec<u8> = Vec::new();
    push_u16_le(&mut group, 0);
    push_u16_le(&mut group, 1);
    push_u16_le(&mut group, #[verifier::truncate] (frames.len() as u16));
    let ghost header = group@;
    let mut index: usize = 0;
    while index < frames.len()
        invariant
            fs == frame_views(frames@),
            index <= frames@.len(),
            header == u16_le(0) + u16_le(1) + u16_le(frames@.len() as u16),
            group@ == header + group_entries(fs, index as int),
        decreases frames.len() - index,
    {
        let frame = &frames[index];
        let ghost before = group@;
        push_bytes(&mut group, &frame.directory_fields);
        push_u32_le(&mut group, #[verifier::truncate] (frame.data.len() as u32));
        push_u16_le(&mut group, #[verifier::truncate] ((index + 1) as u16));
        proof {
            assert(fs[index as int] == frame@);
            assert(group@ =~= header + group_entries(fs, index as int + 1));
        }
        index = index + 1;
    }
    proof {
        assert forall|i: int| 0 <= i < fs.len() implies (#[trigger] fs[i]).0.len() == 8 by {
            assert(fs[i] == frames@[i]@);
        }
        lemma_group_entries_len(fs, fs.len() as int);
    }
    group
}

/// The two kinds of resource an icon is stored as.
#[derive(Clone, Copy, Debug, PartialEq, Eq, Structural)]
pub enum ResourceKind {
    /// One image (`RT_ICON`).
    Icon,
    /// The directory naming the images (`RT_GROUP_ICON`).
    GroupIcon,
}

/// One resource to write into the executable.
pub struct ResourceUpdate {
    pub kind: ResourceKind,
    pub id: u16,
    pub data: Vec<u8>,
}

impl ResourceUpdate {
    pub open spec fn view(&self) -> (ResourceKind, u16, Seq<u8>) {
        (self.kind, self.id, self.data@)
    }
}

/// The resources that embedding an icon writes, in order: image `i` as icon
/// resource `i + 1`, then the group as group resource 1.
pub open spec fn resource_updates_spec(fs: Seq<(Seq<u8>, Seq<u8>)>) -> Seq<
    (ResourceKind, u16, Seq<u8>),
> {
    Seq::new(fs.len(), |i: int| (ResourceKind::Icon, (i + 1) as u16, fs[i].1)).push(
        (ResourceKind::GroupIcon, 1u16, group_icon_spec(fs)),
    )
}

/// Lists the resource writes that embed the given images into an executable.
/// A writer applies them in order and discards all of them if one fails.
pub fn icon_resource_updates(frames: &[IconFrame]) -> (updates: Vec<ResourceUpdate>)
    ensures
        updates@.len() == frames@.len() + 1,
        forall|i: int|
            0 <= i < updates@.len() ==> #[trigger] updates@[i]@ == resource_updates_spec(
                frame_views(frames@),
            )[i],
{
    let ghost fs = frame_views(frames@);
    let mut updates: Vec<ResourceUpdate> = Vec::new();
    let mut index: usize = 0;
    while index < frames.len()
        invariant
            fs == frame_views(frames@),
            index <= frames@.len(),
            updates@.len() == index,
            forall|i: int|
                0 <= i < index ==> #[trigger] updates@[i]@ == resource_updates_spec(fs)[i],
        decreases frames.len() - index,
    {
        let data = copy_range(frames[index].data.as_slice(), 0, frames[index].data.len());
        proof {
            assert(data@ =~= fs[index as int].1);
        }
        updates.push(
            ResourceUpdate {
                kind: ResourceKind::Icon,
                id: #[verifier::truncate] ((index + 1) as u16),
                data,
            },
        );
        index = index + 1;
    }
    let group = group_icon_data(frames);
    updates.push(ResourceUpdate { kind: ResourceKind::GroupIcon, id: 1, data: group });
    updates
}

} // verus!
