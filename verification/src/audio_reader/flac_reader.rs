//! The metadata of a flac file, block by block.
//!
//! Nothing here touches a file: whoever reads the file hands over the bytes
//! of one piece of the format at a time, gets back what they mean, and learns
//! from it how many bytes to read next.
//!
//! Based on https://xiph.org/flac/format.html

use crate::utils::file_reader::{
    big_endian, big_endian_u64, lemma_big_endian_bound, lemma_pow256_values, read_u128_from_swapped_bytes,
    read_u16_from_swapped_bytes, read_u32_from_swapped_bytes,
};
use vstd::prelude::*;
use vstd::slice::slice_subrange;

verus! {

/// The header of a metadata block.
pub struct MetaDataHeader {
    /// Whether the block is the last metadata block of the file.
    pub m_is_last: bool,
    /// The type of the block.
    pub m_block_type: u8,
    /// The length of the block.
    pub m_length: u32,
}

/// The stream information block.
pub struct StreamBlockInfo {
    pub m_min_block_size: u16,
    pub m_max_block_size: u16,
    pub m_min_frame_size: u32,
    pub m_max_frame_size: u32,
    pub m_rate: u32,
    pub m_channel_count: u8,
    pub m_bits_per_sample: u8,
    pub m_total_sample: u64,
}

/// A point of a seek table.
pub struct SeekPoint {
    pub m_sample_number_first_sample: u64,
    pub m_sample_offset: u64,
    pub m_number_samples: u16,
}

/// An application block.
pub struct ApplicationBlock {
    pub m_application_id: u32,
    pub m_application_data: Vec<u8>,
}

/// A block of comments.
pub struct VorbisCommentBlock {
    pub m_vendor_string: String,
    pub m_user_comment_list: Vec<String>,
}

/// A seek table.
pub struct SeekTableBlock {
    pub m_seek_points: Vec<SeekPoint>,
}

/// The kinds of metadata block.
#[derive(PartialEq, Eq, Structural, Clone, Copy, Debug)]
pub enum MetaDataBlock {
    /// Type 0: the stream information.
    StreamInfo,
    /// Type 1: padding.
    Padding,
    /// Type 2: data of an application.
    Application,
    /// Type 3: a seek table.
    SeekTable,
    /// Type 4: comments.
    VorbisComment,
    /// Type 5: a cuesheet.
    Cuesheet,
    /// Type 6: a picture.
    Picture,
    /// Any other type.
    Unknown,
}

/// The kind of block that a block type stands for.
pub open spec fn block_of_type(block_type: u8) -> MetaDataBlock {
    if block_type == 0 {
        MetaDataBlock::StreamInfo
    } else if block_type == 1 {
        MetaDataBlock::Padding
    } else if block_type == 2 {
        MetaDataBlock::Application
    } else if block_type == 3 {
        MetaDataBlock::SeekTable
    } else if block_type == 4 {
        MetaDataBlock::VorbisComment
    } else if block_type == 5 {
        MetaDataBlock::Cuesheet
    } else if block_type == 6 {
        MetaDataBlock::Picture
    } else {
        MetaDataBlock::Unknown
    }
}

impl MetaDataHeader {
    /// The kind of the block that the header announces.
    pub fn block(&self) -> (block: MetaDataBlock)
        ensures
            block == block_of_type(self.m_block_type),
    {
        if self.m_block_type == 0 {
            MetaDataBlock::StreamInfo
        } else if self.m_block_type == 1 {
            MetaDataBlock::Padding
        } else if self.m_block_type == 2 {
            MetaDataBlock::Application
        } else if self.m_block_type == 3 {
            MetaDataBlock::SeekTable
        } else if self.m_block_type == 4 {
            MetaDataBlock::VorbisComment
        } else if self.m_block_type == 5 {
            MetaDataBlock::Cuesheet
        } else if self.m_block_type == 6 {
            MetaDataBlock::Picture
        } else {
            MetaDataBlock::Unknown
        }
    }
}

/// All the metadata of a flac file.
pub struct FlacFile {
    pub m_streaminfo: StreamBlockInfo,
    pub m_application_infos: Vec<ApplicationBlock>,
    pub m_vorbis_comment: Vec<VorbisCommentBlock>,
    pub m_seektables: Vec<SeekTableBlock>,
    pub m_cuesheets: Vec<CuesheetBlock>,
}

/// What the header of a frame begins with.
pub struct FrameHeader {
    /// The lowest bit of the first four bytes: the blocking strategy.
    pub m_block_strategy: u8,
    /// The four lowest bits of the fifth byte: the channel assignment.
    pub m_channel_assignment: u8,
    /// The fifth byte without its four lowest bits: the sample rate.
    pub m_sample_rate: u8,
}

/// The six bits that mark the header of a frame.
pub open spec fn frame_sync_code() -> nat {
    0x2F
}

/// The header of a frame, which begins with five bytes: four that spell one
/// number, most significant byte first, whose six bits above the lowest two
/// are the sync code, and one for the sample rate and the channels. Bytes
/// without the sync code are not the header of a frame.
pub open spec fn frame_header(bytes: Seq<u8>) -> Option<FrameHeader> {
    let first_value = big_endian(bytes.subrange(0, 4));
    if (first_value / 4) % 0x40 == frame_sync_code() {
        Some(
            FrameHeader {
                m_block_strategy: (first_value % 2) as u8,
                m_channel_assignment: bytes[4] % 0x10,
                m_sample_rate: (bytes[4] - bytes[4] % 0x10) as u8,
            },
        )
    } else {
        None
    }
}

/// Reads the header of a frame from its first five bytes.
pub fn read_frame_header(bytes: &[u8; 5]) -> (header: Option<FrameHeader>)
    ensures
        header == frame_header(bytes@),
{
    let first_value = big_endian_u64(slice_subrange(bytes.as_slice(), 0, 4));
    let sync_code = (first_value / 4) % 0x40;
    if sync_code != 0x2F {
        return None;
    }
    let rate_and_channel = bytes[4];
    Some(
        FrameHeader {
            m_block_strategy: (first_value % 2) as u8,
            m_channel_assignment: rate_and_channel % 0x10,
            m_sample_rate: rate_and_channel - rate_and_channel % 0x10,
        },
    )
}

/// The four bytes every flac file starts with: "fLaC".
pub open spec fn flac_magic() -> Seq<u8> {
    seq![0x66u8, 0x4Cu8, 0x61u8, 0x43u8]
}

/// Tells from its first four bytes whether a file is a flac file.
pub fn is_flac_file(magic: &[u8; 4]) -> (is_flac: bool)
    ensures
        is_flac == (magic@ == flac_magic()),
{
    let is_flac = magic[0] == 0x66 && magic[1] == 0x4C && magic[2] == 0x61 && magic[3] == 0x43;
    assert(is_flac == (magic@ =~= flac_magic()));
    is_flac
}

/// The header of a metadata block, which its four bytes spell as one number,
/// most significant byte first: the highest bit says whether the block is the
/// last one, the seven bits below it give the type of the block, and the
/// twenty lowest bits its length.
pub open spec fn metadata_header(bytes: Seq<u8>) -> MetaDataHeader {
    MetaDataHeader {
        m_is_last: big_endian(bytes) / 0x8000_0000 == 1,
        m_block_type: ((big_endian(bytes) / 0x100_0000) % 0x80) as u8,
        m_length: (big_endian(bytes) % 0x10_0000) as u32,
    }
}

/// Reads the header of a metadata block from its four bytes.
pub fn read_metadata_header(bytes: &[u8; 4]) -> (header: MetaDataHeader)
    ensures
        header == metadata_header(bytes@),
{
    let metadata_header: u32 = read_u32_from_swapped_bytes(bytes);
    let block_size: u32 = metadata_header % 0x10_0000;
    let block_type: u32 = (metadata_header / 0x100_0000) % 0x80;
    let b_last_block: u32 = metadata_header / 0x8000_0000;
    MetaDataHeader { m_is_last: b_last_block == 1, m_block_type: block_type as u8, m_length: block_size }
}

/// The stream information block: the two bytes of the minimum block size,
/// then sixteen bytes that spell one number, most significant byte first, in
/// which stand, from the highest bits down: the maximum block size (16 bits),
/// the minimum and the maximum frame size (24 bits each), the sample rate
/// (20 bits), the number of channels less one (3 bits), the bits per sample
/// less one (5 bits) and the number of samples (36 bits).
pub open spec fn stream_information(min_block_size: Seq<u8>, multi_info: Seq<u8>) -> StreamBlockInfo {
    StreamBlockInfo {
        m_min_block_size: big_endian(min_block_size) as u16,
        m_max_block_size: (big_endian(multi_info) / 0x1_0000_0000_0000_0000_0000_0000_0000) as u16,
        m_min_frame_size: ((big_endian(multi_info) / 0x100_0000_0000_0000_0000_0000)
            % 0x100_0000) as u32,
        m_max_frame_size: ((big_endian(multi_info) / 0x1_0000_0000_0000_0000) % 0x100_0000) as u32,
        m_rate: ((big_endian(multi_info) / 0x1000_0000_0000) % 0x10_0000) as u32,
        m_channel_count: ((big_endian(multi_info) / 0x200_0000_0000) % 8 + 1) as u8,
        m_bits_per_sample: ((big_endian(multi_info) / 0x10_0000_0000) % 0x20 + 1) as u8,
        m_total_sample: (big_endian(multi_info) % 0x10_0000_0000) as u64,
    }
}

/// Reads the stream information block from the two bytes of the minimum
/// block size and the sixteen bytes that follow them.
pub fn read_streaminfo_block(min_block_size: &[u8; 2], multi_info: &[u8; 16]) -> (stream_block:
    StreamBlockInfo)
    ensures
        stream_block == stream_information(min_block_size@, multi_info@),
{
    proof {
        lemma_big_endian_bound(min_block_size@);
        lemma_big_endian_bound(multi_info@);
        lemma_pow256_values();
    }
    let min_block_size: u16 = read_u16_from_swapped_bytes(min_block_size);
    let multi_info: u128 = read_u128_from_swapped_bytes(multi_info);
    let total_samples: u64 = (multi_info % 0x10_0000_0000) as u64;
    let bits_per_sample: u8 = ((multi_info / 0x10_0000_0000) % 0x20) as u8 + 1;
    let channel_count: u8 = ((multi_info / 0x200_0000_0000) % 8) as u8 + 1;
    let rate: u32 = ((multi_info / 0x1000_0000_0000) % 0x10_0000) as u32;
    let max_frame_size: u32 = ((multi_info / 0x1_0000_0000_0000_0000) % 0x100_0000) as u32;
    let min_frame_size: u32 = ((multi_info / 0x100_0000_0000_0000_0000_0000) % 0x100_0000) as u32;
    let max_block_size: u16 = (multi_info / 0x1_0000_0000_0000_0000_0000_0000_0000) as u16;
    StreamBlockInfo {
        m_bits_per_sample: bits_per_sample,
        m_rate: rate,
        m_min_block_size: min_block_size,
        m_max_block_size: max_block_size,
        m_total_sample: total_samples,
        m_min_frame_size: min_frame_size,
        m_max_frame_size: max_frame_size,
        m_channel_count: channel_count,
    }
}

/// How many bytes of padding to pass over in a padding block of the given
/// length.
pub fn read_block_padding(length: u32) -> (number_padding: u32)
    ensures
        number_padding == length / 8,
{
    length / 8
}

/// How many seek points a seek table of the given size holds: a seek point
/// takes 18 bytes.
pub fn read_seek_table(size_block: u32) -> (seek_point_count: u32)
    ensures
        seek_point_count == size_block / 18,
{
    size_block / 18
}

/// Reads one seek point from its 18 bytes: the number of its first sample
/// (8 bytes), its offset (8 bytes) and its number of samples (2 bytes), each
/// most significant byte first.
pub fn read_seek_point(bytes: &[u8; 18]) -> (seek_point: SeekPoint)
    ensures
        seek_point.m_sample_number_first_sample == big_endian(bytes@.subrange(0, 8)),
        seek_point.m_sample_offset == big_endian(bytes@.subrange(8, 16)),
        seek_point.m_number_samples == big_endian(bytes@.subrange(16, 18)),
{
    let sample_number = big_endian_u64(slice_subrange(bytes.as_slice(), 0, 8));
    let sample_offset = big_endian_u64(slice_subrange(bytes.as_slice(), 8, 16));
    let number_samples = big_endian_u64(slice_subrange(bytes.as_slice(), 16, 18));
    proof {
        lemma_big_endian_bound(bytes@.subrange(16, 18));
        lemma_pow256_values();
    }
    SeekPoint {
        m_number_samples: number_samples as u16,
        m_sample_offset: sample_offset,
        m_sample_number_first_sample: sample_number,
    }
}

/// How many bytes of data follow the identifier in an application block of
/// the given size, if the size allows for any: a block needs a size of 40 at
/// least.
pub fn read_block_application(size_block: u32) -> (data_count: Option<u32>)
    ensures
        size_block >= 40 ==> data_count == Some(((size_block - 32) / 8 - 1) as u32),
        size_block < 40 ==> data_count is None,
{
    if size_block < 40 {
        None
    } else {
        Some((size_block - 32) / 8 - 1)
    }
}

/// An index point of a track of a cuesheet.
pub struct CuesheetTrackIndexBlock {
    pub m_offset_samples: u64,
    pub m_index_point: u8,
}

/// A track of a cuesheet.
pub struct CuesheetTrackBlock {
    pub m_track_offset_samples: u64,
    pub m_track_number: u8,
    pub m_track_isrc: Vec<u8>,
    pub m_is_audio: bool,
    pub m_pre_emphasis: bool,
    pub m_track_index_points_number: u8,
    pub m_cuesheet_track_indices: Vec<CuesheetTrackIndexBlock>,
}

/// A cuesheet.
pub struct CuesheetBlock {
    pub m_media_catalog_number: Vec<u8>,
    pub m_lead_in_number: u64,
    pub m_is_cd: bool,
    pub m_track_number: u8,
    pub m_cuesheet_tracks: Vec<CuesheetTrackBlock>,
}

/// Copies a run of bytes.
pub(crate) fn copy_bytes(bytes: &[u8], from: usize, to: usize) -> (copy: Vec<u8>)
    requires
        from <= to <= bytes@.len(),
    ensures
        copy@ == bytes@.subrange(from as int, to as int),
{
    let mut copy: Vec<u8> = Vec::new();
    let mut i: usize = from;
    while i < to
        invariant
            from <= i <= to <= bytes@.len(),
            copy@ == bytes@.subrange(from as int, i as int),
        decreases to - i,
    {
        copy.push(bytes[i]);
        assert(copy@ =~= bytes@.subrange(from as int, i + 1));
        i += 1;
    }
    copy
}

/// The index point of a track that 12 bytes spell: its offset in samples
/// (8 bytes, most significant first) and its number; the last three bytes
/// mean nothing.
pub open spec fn cuesheet_track_index(bytes: Seq<u8>) -> CuesheetTrackIndexBlock {
    CuesheetTrackIndexBlock {
        m_offset_samples: big_endian(bytes.subrange(0, 8)) as u64,
        m_index_point: bytes[8],
    }
}

/// Reads an index point of a track from its 12 bytes.
pub fn read_cuesheet_track_index_block(bytes: &[u8; 12]) -> (index: CuesheetTrackIndexBlock)
    ensures
        index == cuesheet_track_index(bytes@),
{
    let offset_samples = big_endian_u64(slice_subrange(bytes.as_slice(), 0, 8));
    CuesheetTrackIndexBlock { m_offset_samples: offset_samples, m_index_point: bytes[8] }
}

/// The fields of the information of a piece of music that a comment of a
/// flac file can fill.
#[derive(PartialEq, Eq, Structural, Clone, Copy, Debug)]
pub enum CommentField {
    /// The name of the artist, under the tag ARTIST.
    Artist,
    /// The name of the piece, under the tag TITLE.
    Title,
    /// The number of the track, under the tag TRACKNUMBER.
    TrackNumber,
    /// The date, under the tag DATE.
    Date,
    /// The date again, under the tag YEAR that some files use.
    Year,
    /// The album, under the tag ALBUM.
    Album,
    /// The type of music, under the tag GENRE.
    Genre,
}

/// The tag of a field, in ASCII.
pub open spec fn tag_name(field: CommentField) -> Seq<u8> {
    match field {
        CommentField::Artist => seq![0x41u8, 0x52u8, 0x54u8, 0x49u8, 0x53u8, 0x54u8],
        CommentField::Title => seq![0x54u8, 0x49u8, 0x54u8, 0x4Cu8, 0x45u8],
        CommentField::TrackNumber => seq![
            0x54u8,
            0x52u8,
            0x41u8,
            0x43u8,
            0x4Bu8,
            0x4Eu8,
            0x55u8,
            0x4Du8,
            0x42u8,
            0x45u8,
            0x52u8,
        ],
        CommentField::Date => seq![0x44u8, 0x41u8, 0x54u8, 0x45u8],
        CommentField::Year => seq![0x59u8, 0x45u8, 0x41u8, 0x52u8],
        CommentField::Album => seq![0x41u8, 0x4Cu8, 0x42u8, 0x55u8, 0x4Du8],
        CommentField::Genre => seq![0x47u8, 0x45u8, 0x4Eu8, 0x52u8, 0x45u8],
    }
}

/// The tag of a field, in ASCII.
pub fn tag_bytes(field: CommentField) -> (name: Vec<u8>)
    ensures
        name@ == tag_name(field),
{
    let name = match field {
        CommentField::Artist => vec![0x41u8, 0x52u8, 0x54u8, 0x49u8, 0x53u8, 0x54u8],
        CommentField::Title => vec![0x54u8, 0x49u8, 0x54u8, 0x4Cu8, 0x45u8],
        CommentField::TrackNumber => vec![
            0x54u8,
            0x52u8,
            0x41u8,
            0x43u8,
            0x4Bu8,
            0x4Eu8,
            0x55u8,
            0x4Du8,
            0x42u8,
            0x45u8,
            0x52u8,
        ],
        CommentField::Date => vec![0x44u8, 0x41u8, 0x54u8, 0x45u8],
        CommentField::Year => vec![0x59u8, 0x45u8, 0x41u8, 0x52u8],
        CommentField::Album => vec![0x41u8, 0x4Cu8, 0x42u8, 0x55u8, 0x4Du8],
        CommentField::Genre => vec![0x47u8, 0x45u8, 0x4Eu8, 0x52u8, 0x45u8],
    };
    assert(name@ =~= tag_name(field));
    name
}

/// `pattern` stands in `text` at the place `at`.
pub open spec fn occurs_at(text: Seq<u8>, pattern: Seq<u8>, at: int) -> bool {
    &&& 0 <= at
    &&& at + pattern.len() <= text.len()
    &&& text.subrange(at, at + pattern.len()) == pattern
}

/// `pattern` stands somewhere in `text`.
pub open spec fn contains(text: Seq<u8>, pattern: Seq<u8>) -> bool {
    exists|at: int| occurs_at(text, pattern, at)
}

/// Tells whether `pattern` stands in `text` at the place `at`.
fn bytes_occur_at(text: &[u8], pattern: &[u8], at: usize) -> (occurs: bool)
    requires
        at + pattern@.len() <= text@.len(),
    ensures
        occurs == occurs_at(text@, pattern@, at as int),
{
    let length: usize = text.len();
    let mut i: usize = 0;
    while i < pattern.len()
        invariant
            i <= pattern@.len(),
            at + pattern@.len() <= text@.len() == length,
            text@.subrange(at as int, at + i) == pattern@.subrange(0, i as int),
        decreases pattern@.len() - i,
    {
        if text[at + i] != pattern[i] {
            proof {
                let piece = text@.subrange(at as int, at + pattern@.len());
                assert(piece[i as int] == text@[at + i]);
            }
            return false;
        }
        assert(text@.subrange(at as int, at + i + 1) =~= text@.subrange(at as int, at + i).push(
            text@[at + i],
        ));
        assert(pattern@.subrange(0, i + 1) =~= pattern@.subrange(0, i as int).push(pattern@[i as int]));
        i += 1;
    }
    assert(pattern@.subrange(0, i as int) =~= pattern@);
    true
}

/// Tells whether `pattern` stands somewhere in `text`.
pub fn bytes_contain(text: &[u8], pattern: &[u8]) -> (found: bool)
    ensures
        found == contains(text@, pattern@),
{
    if pattern.len() > text.len() {
        return false;
    }
    let last: usize = text.len() - pattern.len();
    let mut at: usize = 0;
    loop
        invariant
            at <= last,
            last == text@.len() - pattern@.len(),
            forall|before: int| 0 <= before < at ==> !occurs_at(text@, pattern@, before),
        decreases last - at,
    {
        if bytes_occur_at(text, pattern, at) {
            return true;
        }
        if at == last {
            return false;
        }
        at += 1;
    }
}

/// The field that a comment fills: that of the first tag, in the order
/// ARTIST, TITLE, TRACKNUMBER, DATE, YEAR, ALBUM, GENRE, that stands
/// somewhere in the comment. A comment with none of these tags fills no
/// field.
pub open spec fn comment_field(comment: Seq<u8>) -> Option<CommentField> {
    if contains(comment, tag_name(CommentField::Artist)) {
        Some(CommentField::Artist)
    } else if contains(comment, tag_name(CommentField::Title)) {
        Some(CommentField::Title)
    } else if contains(comment, tag_name(CommentField::TrackNumber)) {
        Some(CommentField::TrackNumber)
    } else if contains(comment, tag_name(CommentField::Date)) {
        Some(CommentField::Date)
    } else if contains(comment, tag_name(CommentField::Year)) {
        Some(CommentField::Year)
    } else if contains(comment, tag_name(CommentField::Album)) {
        Some(CommentField::Album)
    } else if contains(comment, tag_name(CommentField::Genre)) {
        Some(CommentField::Genre)
    } else {
        None
    }
}

/// Finds the field that a comment fills.
pub fn read_comment_field(comment: &[u8]) -> (field: Option<CommentField>)
    ensures
        field == comment_field(comment@),
{
    if bytes_contain(comment, tag_bytes(CommentField::Artist).as_slice()) {
        Some(CommentField::Artist)
    } else if bytes_contain(comment, tag_bytes(CommentField::Title).as_slice()) {
        Some(CommentField::Title)
    } else if bytes_contain(comment, tag_bytes(CommentField::TrackNumber).as_slice()) {
        Some(CommentField::TrackNumber)
    } else if bytes_contain(comment, tag_bytes(CommentField::Date).as_slice()) {
        Some(CommentField::Date)
    } else if bytes_contain(comment, tag_bytes(CommentField::Year).as_slice()) {
        Some(CommentField::Year)
    } else if bytes_contain(comment, tag_bytes(CommentField::Album).as_slice()) {
        Some(CommentField::Album)
    } else if bytes_contain(comment, tag_bytes(CommentField::Genre).as_slice()) {
        Some(CommentField::Genre)
    } else {
        None
    }
}

/// How many bytes a byte of a comment takes once the comment is a string, in
/// which each byte of the comment is one character: one byte for a character
/// below 128, two for any other.
pub open spec fn encoded_width(byte: u8) -> nat {
    if byte < 0x80 {
        1
    } else {
        2
    }
}

/// How many bytes the given bytes of a comment take once the comment is a
/// string.
pub open spec fn encoded_length(bytes: Seq<u8>) -> nat
    decreases bytes.len(),
{
    if bytes.len() == 0 {
        0
    } else {
        encoded_length(bytes.drop_last()) + encoded_width(bytes.last())
    }
}

/// How far into the comment, as a string, the value of a field begins: after
/// as many bytes as the tag and the sign `=` take.
pub open spec fn value_offset(field: CommentField) -> nat {
    tag_name(field).len() + 1
}

/// The value of the field begins with the character `start` of the comment.
pub open spec fn value_starts_at(comment: Seq<u8>, field: CommentField, start: int) -> bool {
    &&& 0 <= start <= comment.len()
    &&& encoded_length(comment.take(start)) == value_offset(field)
}

/// A longer piece of a comment takes no fewer bytes.
pub proof fn lemma_encoded_length_increases(comment: Seq<u8>, low: int, high: int)
    requires
        0 <= low <= high <= comment.len(),
    ensures
        encoded_length(comment.take(low)) <= encoded_length(comment.take(high)),
        low < high ==> encoded_length(comment.take(low)) < encoded_length(comment.take(high)),
    decreases high - low,
{
    if low < high {
        assert(comment.take(high).drop_last() =~= comment.take(high - 1));
        lemma_encoded_length_increases(comment, low, high - 1);
    }
}

/// Finds the character of a comment with which the value of a field begins.
/// There is none where the comment is shorter than the tag and the sign `=`,
/// and none where the value would begin in the middle of a character.
pub fn read_comment_value_start(comment: &[u8], field: CommentField) -> (start: Option<usize>)
    ensures
        match start {
            Some(start) => value_starts_at(comment@, field, start as int),
            None => forall|start: int| !value_starts_at(comment@, field, start),
        },
{
    let offset: usize = tag_bytes(field).len() + 1;
    let mut length: usize = 0;
    let mut start: usize = 0;
    while start < comment.len() && length < offset
        invariant
            start <= comment@.len(),
            offset == value_offset(field),
            offset <= 12,
            length == encoded_length(comment@.take(start as int)),
            length <= offset + 1,
            forall|before: int| 0 <= before < start ==> !value_starts_at(comment@, field, before),
        decreases comment@.len() - start,
    {
        proof {
            assert(comment@.take(start + 1).drop_last() =~= comment@.take(start as int));
            assert(comment@.take(start + 1).last() == comment@[start as int]);
            assert forall|before: int| 0 <= before < start + 1 implies !value_starts_at(
                comment@,
                field,
                before,
            ) by {
                lemma_encoded_length_increases(comment@, before, start as int);
            }
        }
        length += if comment[start] < 0x80 {
            1
        } else {
            2
        };
        start += 1;
    }
    if length == offset {
        Some(start)
    } else {
        proof {
            assert forall|other: int| !value_starts_at(comment@, field, other) by {
                if start as int <= other <= comment@.len() {
                    lemma_encoded_length_increases(comment@, start as int, other);
                }
            }
        }
        None
    }
}

} // verus!
