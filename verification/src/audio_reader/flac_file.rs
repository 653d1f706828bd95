//! A flac file from its first byte to its last metadata block.
//!
//! The file is given as the bytes it is made of. It is read from the front,
//! piece after piece, and a piece that reaches past the end of the file is
//! read as if the file went on with zeros. What is kept of the file is what
//! tells of the piece of music: three numbers of the stream information, and
//! the values of the comments that name the artist, the title and the like.

use crate::audio_reader::flac_reader::{
    block_of_type, comment_field, copy_bytes, cuesheet_track_index, flac_magic, is_flac_file,
    lemma_encoded_length_increases, metadata_header, occurs_at, read_block_application,
    read_block_padding, read_comment_field, read_comment_value_start,
    read_cuesheet_track_index_block, read_metadata_header, read_seek_table,
    read_streaminfo_block, stream_information, tag_name, value_starts_at, CommentField,
    CuesheetBlock, CuesheetTrackBlock, CuesheetTrackIndexBlock, MetaDataBlock, MetaDataHeader,
    StreamBlockInfo,
};
use crate::utils::file_reader::{big_endian, big_endian_u64};
use crate::utils::file_reader::{little_endian, read_u32_from_bytes};
use vstd::prelude::*;

verus! {

/// Why the metadata of a flac file cannot be read.
#[derive(PartialEq, Eq, Structural, Clone, Copy, Debug)]
pub enum FlacError {
    /// An application block is too small to hold any data: its size is below
    /// 40.
    ApplicationBlockTooSmall,
    /// A comment has the tag of a field and ends before the value begins, or
    /// the value would begin in the middle of a character.
    CommentWithoutValue,
}

/// What is kept of the metadata of a flac file. The texts are kept as the
/// bytes they are made of in the file: each byte is one character.
pub struct FlacMetadata {
    pub m_rate: u32,
    pub m_channel_count: u8,
    pub m_bits_per_sample: u8,
    pub m_music_name: Vec<u8>,
    pub m_music_type: Vec<u8>,
    pub m_artist_name: Vec<u8>,
    pub m_tracknumber: Vec<u8>,
    pub m_album: Vec<u8>,
    pub m_date: Vec<u8>,
}

/// The metadata of a flac file as the contracts see them.
pub struct FlacMetadataView {
    pub rate: u32,
    pub channel_count: u8,
    pub bits_per_sample: u8,
    pub music_name: Seq<u8>,
    pub music_type: Seq<u8>,
    pub artist_name: Seq<u8>,
    pub tracknumber: Seq<u8>,
    pub album: Seq<u8>,
    pub date: Seq<u8>,
}

impl View for FlacMetadata {
    type V = FlacMetadataView;

    open spec fn view(&self) -> FlacMetadataView {
        FlacMetadataView {
            rate: self.m_rate,
            channel_count: self.m_channel_count,
            bits_per_sample: self.m_bits_per_sample,
            music_name: self.m_music_name@,
            music_type: self.m_music_type@,
            artist_name: self.m_artist_name@,
            tracknumber: self.m_tracknumber@,
            album: self.m_album@,
            date: self.m_date@,
        }
    }
}

/// The metadata of a file of which nothing is known: no text and three
/// zeros.
pub open spec fn unknown_metadata() -> FlacMetadataView {
    FlacMetadataView {
        rate: 0,
        channel_count: 0,
        bits_per_sample: 0,
        music_name: Seq::empty(),
        music_type: Seq::empty(),
        artist_name: Seq::empty(),
        tracknumber: Seq::empty(),
        album: Seq::empty(),
        date: Seq::empty(),
    }
}

/// The metadata after the stream information was read: its rate, its bits
/// per sample and its number of channels are kept.
pub open spec fn with_stream_information(
    metadata: FlacMetadataView,
    stream_block: StreamBlockInfo,
) -> FlacMetadataView {
    FlacMetadataView {
        rate: stream_block.m_rate,
        bits_per_sample: stream_block.m_bits_per_sample,
        channel_count: stream_block.m_channel_count,
        ..metadata
    }
}

/// The metadata after a comment gave a field its value. The tags DATE and
/// YEAR fill the same field.
pub open spec fn with_comment(
    metadata: FlacMetadataView,
    field: CommentField,
    value: Seq<u8>,
) -> FlacMetadataView {
    match field {
        CommentField::Artist => FlacMetadataView { artist_name: value, ..metadata },
        CommentField::Title => FlacMetadataView { music_name: value, ..metadata },
        CommentField::TrackNumber => FlacMetadataView { tracknumber: value, ..metadata },
        CommentField::Date => FlacMetadataView { date: value, ..metadata },
        CommentField::Year => FlacMetadataView { date: value, ..metadata },
        CommentField::Album => FlacMetadataView { album: value, ..metadata },
        CommentField::Genre => FlacMetadataView { music_type: value, ..metadata },
    }
}

/// The `count` bytes that are read at `position`: those of the file, and
/// zeros from where the file ends.
pub open spec fn read_at(data: Seq<u8>, position: int, count: nat) -> Seq<u8> {
    Seq::new(
        count,
        |offset: int|
            if position + offset < data.len() {
                data[position + offset]
            } else {
                0u8
            },
    )
}

/// The place in the file after `count` bytes were read at `position`: the
/// end of the file at most.
pub open spec fn advance(data: Seq<u8>, position: int, count: nat) -> int {
    if position + count < data.len() {
        position + count
    } else {
        data.len() as int
    }
}

/// The value that a comment gives the field whose tag it has: the comment
/// from the character with which the value begins. There is none where the
/// comment ends before, and none where the value would begin in the middle
/// of a character.
pub open spec fn comment_value(comment: Seq<u8>, field: CommentField) -> Option<Seq<u8>> {
    if exists|start: int| value_starts_at(comment, field, start) {
        Some(comment.skip(choose|start: int| value_starts_at(comment, field, start)))
    } else {
        None
    }
}

/// The metadata after `remaining` comments were read at `position`, and the
/// place in the file after them. Each comment is a length, in four bytes
/// with the least significant first, and as many bytes of text. A comment
/// that has the tag of a field gives that field its value; the others are
/// passed over.
pub open spec fn read_comments(
    data: Seq<u8>,
    position: int,
    remaining: nat,
    metadata: FlacMetadataView,
) -> Result<(int, FlacMetadataView), FlacError>
    decreases remaining,
{
    if remaining == 0 {
        Ok((position, metadata))
    } else {
        let size = little_endian(read_at(data, position, 4));
        let start = advance(data, position, 4);
        let comment = read_at(data, start, size);
        let next = advance(data, start, size);
        match comment_field(comment) {
            None => read_comments(data, next, (remaining - 1) as nat, metadata),
            Some(field) => match comment_value(comment, field) {
                None => Err(FlacError::CommentWithoutValue),
                Some(value) => read_comments(
                    data,
                    next,
                    (remaining - 1) as nat,
                    with_comment(metadata, field, value),
                ),
            },
        }
    }
}

/// The byte that is read at `position`: that of the file, and zero from
/// where the file ends.
pub open spec fn byte_of(data: Seq<u8>, position: int) -> u8 {
    read_at(data, position, 1)[0]
}

/// The place in the file after the track of a cuesheet that begins at
/// `position`: a track takes 36 bytes, the last of which is the number of
/// its index points, and 12 bytes for each index point.
pub open spec fn cuesheet_track_end(data: Seq<u8>, position: int) -> int {
    advance(data, advance(data, position, 36), 12 * byte_of(data, position + 35) as nat)
}

/// The place in the file after `remaining` tracks of a cuesheet were read at
/// `position`.
pub open spec fn cuesheet_tracks_end(data: Seq<u8>, position: int, remaining: nat) -> int
    decreases remaining,
{
    if remaining == 0 {
        position
    } else {
        cuesheet_tracks_end(data, cuesheet_track_end(data, position), (remaining - 1) as nat)
    }
}

/// `track` is the track of a cuesheet that begins at `position`: its offset
/// in samples (8 bytes, most significant first), its number, its ISRC
/// (12 bytes), a byte of flags whose lowest bit says that the track is audio
/// and whose next bit says that it has pre-emphasis, 13 bytes that mean
/// nothing, the number of its index points, and then the index points
/// themselves, 12 bytes each.
pub open spec fn is_cuesheet_track_at(track: CuesheetTrackBlock, data: Seq<u8>, position: int) -> bool {
    &&& track.m_track_offset_samples == big_endian(read_at(data, position, 8))
    &&& track.m_track_number == byte_of(data, position + 8)
    &&& track.m_track_isrc@ == read_at(data, position + 9, 12)
    &&& track.m_is_audio == (byte_of(data, position + 21) % 2 == 1)
    &&& track.m_pre_emphasis == ((byte_of(data, position + 21) / 2) % 2 == 1)
    &&& track.m_track_index_points_number == byte_of(data, position + 35)
    &&& track.m_cuesheet_track_indices@ == Seq::new(
        byte_of(data, position + 35) as nat,
        |i: int| cuesheet_track_index(read_at(data, position + 36 + 12 * i, 12)),
    )
}

/// `cuesheet` is the cuesheet that begins at `position`: the media catalog
/// number (128 bytes), the number of lead-in samples (8 bytes, most
/// significant first), a byte whose lowest bit says that the cuesheet is that
/// of a CD, 258 bytes that mean nothing, the number of tracks, and then the
/// tracks themselves, one after the other.
pub open spec fn is_cuesheet_at(cuesheet: CuesheetBlock, data: Seq<u8>, position: int) -> bool {
    &&& cuesheet.m_media_catalog_number@ == read_at(data, position, 128)
    &&& cuesheet.m_lead_in_number == big_endian(read_at(data, position + 128, 8))
    &&& cuesheet.m_is_cd == (byte_of(data, position + 136) % 2 == 1)
    &&& cuesheet.m_track_number == byte_of(data, position + 395)
    &&& cuesheet.m_cuesheet_tracks@.len() == byte_of(data, position + 395)
    &&& forall|k: int|
        0 <= k < cuesheet.m_cuesheet_tracks@.len() ==> is_cuesheet_track_at(
            #[trigger] cuesheet.m_cuesheet_tracks@[k],
            data,
            cuesheet_tracks_end(data, advance(data, position, 396), k as nat),
        )
}

/// The tracks of a cuesheet follow each other: one more track ends where the
/// track after the others ends.
pub proof fn lemma_cuesheet_tracks_next(data: Seq<u8>, position: int, count: nat)
    ensures
        cuesheet_tracks_end(data, position, count + 1) == cuesheet_track_end(
            data,
            cuesheet_tracks_end(data, position, count),
        ),
    decreases count,
{
    reveal_with_fuel(cuesheet_tracks_end, 2);
    if count > 0 {
        lemma_cuesheet_tracks_next(data, cuesheet_track_end(data, position), (count - 1) as nat);
        assert(cuesheet_tracks_end(data, position, count) == cuesheet_tracks_end(
            data,
            cuesheet_track_end(data, position),
            (count - 1) as nat,
        ));
    }
}

/// The metadata after the block that `header` announces was read at
/// `position`, and the place in the file after the block.
///
/// - Padding: an eighth of the length of the block is passed over.
/// - Application: an identifier of four bytes, then the data, one byte less
///   than an eighth of what the size leaves after 32.
/// - Seek table: 18 bytes for each seek point that the length holds.
/// - Comments: the name of the vendor, with its length in four bytes before
///   it, the number of comments in four bytes, then the comments.
/// - Cuesheet: 396 bytes, the last of which is the number of tracks, then the
///   tracks.
/// - Any other block: nothing is read.
pub open spec fn read_block(
    data: Seq<u8>,
    position: int,
    header: MetaDataHeader,
    metadata: FlacMetadataView,
) -> Result<(int, FlacMetadataView), FlacError> {
    match block_of_type(header.m_block_type) {
        MetaDataBlock::Padding => Ok((advance(data, position, (header.m_length / 8) as nat), metadata)),
        MetaDataBlock::Application => if header.m_length < 40 {
            Err(FlacError::ApplicationBlockTooSmall)
        } else {
            Ok(
                (
                    advance(
                        data,
                        advance(data, position, 4),
                        ((header.m_length - 32) / 8 - 1) as nat,
                    ),
                    metadata,
                ),
            )
        },
        MetaDataBlock::SeekTable => Ok(
            (advance(data, position, 18 * (header.m_length / 18) as nat), metadata),
        ),
        MetaDataBlock::VorbisComment => {
            let vendor_length = little_endian(read_at(data, position, 4));
            let list = advance(data, advance(data, position, 4), vendor_length);
            let list_length = little_endian(read_at(data, list, 4));
            read_comments(data, advance(data, list, 4), list_length, metadata)
        },
        MetaDataBlock::Cuesheet => {
            let tracks = byte_of(data, position + 395);
            Ok((cuesheet_tracks_end(data, advance(data, position, 396), tracks as nat), metadata))
        },
        _ => Ok((position, metadata)),
    }
}

/// Reading never goes back, and never goes past the end of the file.
pub proof fn lemma_advance(data: Seq<u8>, position: int, count: nat)
    requires
        position <= data.len(),
    ensures
        position <= advance(data, position, count) <= data.len(),
        advance(data, position, count) == position ==> count == 0 || position == data.len(),
{
}

/// Reading the comments never goes back.
pub proof fn lemma_read_comments_advances(
    data: Seq<u8>,
    position: int,
    remaining: nat,
    metadata: FlacMetadataView,
)
    requires
        position <= data.len(),
    ensures
        read_comments(data, position, remaining, metadata) matches Ok(end) ==> position <= end.0
            <= data.len(),
    decreases remaining,
{
    if remaining > 0 {
        let size = little_endian(read_at(data, position, 4));
        let start = advance(data, position, 4);
        let comment = read_at(data, start, size);
        let next = advance(data, start, size);
        match comment_field(comment) {
            None => {
                lemma_read_comments_advances(data, next, (remaining - 1) as nat, metadata);
            },
            Some(field) => match comment_value(comment, field) {
                None => {},
                Some(value) => {
                    lemma_read_comments_advances(
                        data,
                        next,
                        (remaining - 1) as nat,
                        with_comment(metadata, field, value),
                    );
                },
            },
        }
    }
}

/// Once the file has ended, the comments that are still to be read are all
/// empty: they change nothing.
pub proof fn lemma_read_comments_at_end(data: Seq<u8>, remaining: nat, metadata: FlacMetadataView)
    ensures
        read_comments(data, data.len() as int, remaining, metadata) == Ok::<
            (int, FlacMetadataView),
            FlacError,
        >((data.len() as int, metadata)),
    decreases remaining,
{
    if remaining > 0 {
        let end = data.len() as int;
        let zeros = read_at(data, end, 4);
        assert(little_endian(zeros) == 0) by {
            reveal_with_fuel(little_endian, 5);
            assert(zeros.drop_first() =~= seq![0u8, 0u8, 0u8]);
            assert(zeros.drop_first().drop_first() =~= seq![0u8, 0u8]);
            assert(zeros.drop_first().drop_first().drop_first() =~= seq![0u8]);
            assert(zeros.drop_first().drop_first().drop_first().drop_first() =~= Seq::<u8>::empty());
        }
        let comment = read_at(data, end, 0);
        assert(comment.len() == 0);
        assert(comment_field(comment) is None) by {
            assert forall|field: CommentField, at: int| !occurs_at(comment, tag_name(field), at) by {}
        }
        lemma_read_comments_at_end(data, (remaining - 1) as nat, metadata);
    }
}

/// Reading the tracks of a cuesheet never goes back.
pub proof fn lemma_cuesheet_tracks_advance(data: Seq<u8>, position: int, remaining: nat)
    requires
        position <= data.len(),
    ensures
        position <= cuesheet_tracks_end(data, position, remaining) <= data.len(),
    decreases remaining,
{
    if remaining > 0 {
        lemma_cuesheet_tracks_advance(
            data,
            cuesheet_track_end(data, position),
            (remaining - 1) as nat,
        );
    }
}

/// Reading a block never goes back.
pub proof fn lemma_read_block_advances(
    data: Seq<u8>,
    position: int,
    header: MetaDataHeader,
    metadata: FlacMetadataView,
)
    requires
        position <= data.len(),
    ensures
        read_block(data, position, header, metadata) matches Ok(end) ==> position <= end.0
            <= data.len(),
{
    match block_of_type(header.m_block_type) {
        MetaDataBlock::VorbisComment => {
            let vendor_length = little_endian(read_at(data, position, 4));
            let list = advance(data, advance(data, position, 4), vendor_length);
            let list_length = little_endian(read_at(data, list, 4));
            lemma_read_comments_advances(data, advance(data, list, 4), list_length, metadata);
        },
        MetaDataBlock::Cuesheet => {
            let tracks = byte_of(data, position + 395);
            lemma_cuesheet_tracks_advance(data, advance(data, position, 396), tracks as nat);
        },
        _ => {},
    }
}

/// The metadata after the blocks from `position` on were read:
/// block after block, each with its header of four bytes before it, until a
/// block comes that its header says to be the last one; `is_last` says
/// whether the block before `position` was. Where the file ends before
/// such a block has come, the blocks end with the file.
pub open spec fn read_blocks(
    data: Seq<u8>,
    position: int,
    is_last: bool,
    metadata: FlacMetadataView,
) -> Result<FlacMetadataView, FlacError>
    decreases data.len() - position,
{
    if is_last || position >= data.len() {
        Ok(metadata)
    } else {
        let header = metadata_header(read_at(data, position, 4));
        match read_block(data, advance(data, position, 4), header, metadata) {
            Err(error) => Err(error),
            Ok((next, read)) => {
                proof {
                    lemma_advance(data, position, 4);
                    lemma_read_block_advances(data, advance(data, position, 4), header, metadata);
                }
                read_blocks(data, next, header.m_is_last, read)
            },
        }
    }
}

/// What is kept of the metadata of the file made of the bytes `data`.
///
/// A file that does not begin with the four bytes of a flac file has no
/// metadata. In a flac file the header of the first block comes next; where
/// that block is the stream information, it takes 34 bytes: two for the
/// minimum block size, sixteen for the rest of the information and sixteen
/// that are passed over. The other blocks follow.
pub open spec fn flac_metadata(data: Seq<u8>) -> Result<FlacMetadataView, FlacError> {
    if read_at(data, 0, 4) != flac_magic() {
        Ok(unknown_metadata())
    } else {
        let header = metadata_header(read_at(data, advance(data, 0, 4), 4));
        let first = advance(data, advance(data, 0, 4), 4);
        if block_of_type(header.m_block_type) == MetaDataBlock::StreamInfo {
            let stream_block = stream_information(
                read_at(data, first, 2),
                read_at(data, advance(data, first, 2), 16),
            );
            read_blocks(
                data,
                advance(data, advance(data, advance(data, first, 2), 16), 16),
                header.m_is_last,
                with_stream_information(unknown_metadata(), stream_block),
            )
        } else {
            read_blocks(data, first, header.m_is_last, unknown_metadata())
        }
    }
}

/// Reads the byte that stands `offset` places after `position`.
fn byte_at(data: &[u8], position: usize, offset: usize) -> (byte: u8)
    requires
        position <= data@.len(),
    ensures
        byte == if position + offset < data@.len() {
            data@[position + offset]
        } else {
            0u8
        },
{
    if offset < data.len() - position {
        data[position + offset]
    } else {
        0
    }
}

/// Goes `count` bytes further in the file.
fn advance_by(data: &[u8], position: usize, count: u64) -> (next: usize)
    requires
        position <= data@.len(),
    ensures
        next == advance(data@, position as int, count as nat),
        position <= next <= data@.len(),
{
    let room: usize = data.len() - position;
    if count < room as u64 {
        position + count as usize
    } else {
        data.len()
    }
}

/// Reads two bytes.
fn read_two(data: &[u8], position: usize) -> (bytes: [u8; 2])
    requires
        position <= data@.len(),
    ensures
        bytes@ == read_at(data@, position as int, 2),
{
    let bytes = [byte_at(data, position, 0), byte_at(data, position, 1)];
    assert(bytes@ =~= read_at(data@, position as int, 2));
    bytes
}

/// Reads four bytes.
fn read_four(data: &[u8], position: usize) -> (bytes: [u8; 4])
    requires
        position <= data@.len(),
    ensures
        bytes@ == read_at(data@, position as int, 4),
{
    let bytes = [
        byte_at(data, position, 0),
        byte_at(data, position, 1),
        byte_at(data, position, 2),
        byte_at(data, position, 3),
    ];
    assert(bytes@ =~= read_at(data@, position as int, 4));
    bytes
}

/// Reads sixteen bytes.
fn read_sixteen(data: &[u8], position: usize) -> (bytes: [u8; 16])
    requires
        position <= data@.len(),
    ensures
        bytes@ == read_at(data@, position as int, 16),
{
    let bytes = [
        byte_at(data, position, 0),
        byte_at(data, position, 1),
        byte_at(data, position, 2),
        byte_at(data, position, 3),
        byte_at(data, position, 4),
        byte_at(data, position, 5),
        byte_at(data, position, 6),
        byte_at(data, position, 7),
        byte_at(data, position, 8),
        byte_at(data, position, 9),
        byte_at(data, position, 10),
        byte_at(data, position, 11),
        byte_at(data, position, 12),
        byte_at(data, position, 13),
        byte_at(data, position, 14),
        byte_at(data, position, 15),
    ];
    assert(bytes@ =~= read_at(data@, position as int, 16));
    bytes
}

/// Reads a number of four bytes, least significant byte first.
fn read_length(data: &[u8], position: usize) -> (length: u32)
    requires
        position <= data@.len(),
    ensures
        length == little_endian(read_at(data@, position as int, 4)),
{
    read_u32_from_bytes(&read_four(data, position))
}

/// Reads a run of bytes.
fn read_run(data: &[u8], position: usize, count: u32) -> (bytes: Vec<u8>)
    requires
        position <= data@.len(),
    ensures
        bytes@ == read_at(data@, position as int, count as nat),
{
    let mut bytes: Vec<u8> = Vec::new();
    let mut offset: u32 = 0;
    while offset < count
        invariant
            offset <= count,
            position <= data@.len(),
            bytes@ == read_at(data@, position as int, offset as nat),
        decreases count - offset,
    {
        bytes.push(byte_at(data, position, offset as usize));
        offset += 1;
        assert(bytes@ =~= read_at(data@, position as int, offset as nat));
    }
    bytes
}

/// The value of a field begins at one place of a comment at most.
pub proof fn lemma_value_start_is_unique(
    comment: Seq<u8>,
    field: CommentField,
    one: int,
    other: int,
)
    requires
        value_starts_at(comment, field, one),
        value_starts_at(comment, field, other),
    ensures
        one == other,
{
    if one < other {
        lemma_encoded_length_increases(comment, one, other);
    } else if other < one {
        lemma_encoded_length_increases(comment, other, one);
    }
}

impl FlacMetadata {
    /// The metadata of a file of which nothing is known.
    pub fn unknown() -> (metadata: Self)
        ensures
            metadata@ == unknown_metadata(),
    {
        FlacMetadata {
            m_rate: 0,
            m_channel_count: 0,
            m_bits_per_sample: 0,
            m_music_name: Vec::new(),
            m_music_type: Vec::new(),
            m_artist_name: Vec::new(),
            m_tracknumber: Vec::new(),
            m_album: Vec::new(),
            m_date: Vec::new(),
        }
    }

    /// Takes over from the stream information what is kept of it: the rate,
    /// the bits per sample and the number of channels.
    pub fn keep_stream_information(&mut self, stream_block: &StreamBlockInfo)
        ensures
            final(self)@ == with_stream_information(old(self)@, *stream_block),
    {
        self.m_rate = stream_block.m_rate;
        self.m_bits_per_sample = stream_block.m_bits_per_sample;
        self.m_channel_count = stream_block.m_channel_count;
    }

    /// Gives a field its value from a comment.
    pub fn keep_comment(&mut self, field: CommentField, value: Vec<u8>)
        ensures
            final(self)@ == with_comment(old(self)@, field, value@),
    {
        match field {
            CommentField::Artist => {
                self.m_artist_name = value;
            },
            CommentField::Title => {
                self.m_music_name = value;
            },
            CommentField::TrackNumber => {
                self.m_tracknumber = value;
            },
            CommentField::Date => {
                self.m_date = value;
            },
            CommentField::Year => {
                self.m_date = value;
            },
            CommentField::Album => {
                self.m_album = value;
            },
            CommentField::Genre => {
                self.m_music_type = value;
            },
        }
    }
}

/// Reads the value that a comment gives the field whose tag it has.
pub fn read_comment_value(comment: &[u8], field: CommentField) -> (value: Option<Vec<u8>>)
    ensures
        match value {
            Some(value) => comment_value(comment@, field) == Some(value@),
            None => comment_value(comment@, field) is None,
        },
{
    match read_comment_value_start(comment, field) {
        None => None,
        Some(start) => {
            let value = copy_bytes(comment, start, comment.len());
            proof {
                let chosen = choose|start: int| value_starts_at(comment@, field, start);
                lemma_value_start_is_unique(comment@, field, start as int, chosen);
                assert(value@ =~= comment@.skip(start as int));
            }
            Some(value)
        },
    }
}

/// Reads `count` comments at `position` and keeps what they say of the
/// fields.
fn read_comment_list(
    data: &[u8],
    position: usize,
    count: u32,
    metadata: &mut FlacMetadata,
) -> (end: Result<usize, FlacError>)
    requires
        position <= data@.len(),
    ensures
        match end {
            Ok(next) => next <= data@.len() && read_comments(
                data@,
                position as int,
                count as nat,
                old(metadata)@,
            ) == Ok::<(int, FlacMetadataView), FlacError>((next as int, final(metadata)@)),
            Err(error) => read_comments(data@, position as int, count as nat, old(metadata)@)
                == Err::<(int, FlacMetadataView), FlacError>(error),
        },
{
    let mut at: usize = position;
    let mut remaining: u32 = count;
    while remaining > 0
        invariant
            at <= data@.len(),
            read_comments(data@, at as int, remaining as nat, metadata@) == read_comments(
                data@,
                position as int,
                count as nat,
                old(metadata)@,
            ),
        decreases remaining,
    {
        if at == data.len() {
            proof {
                lemma_read_comments_at_end(data@, remaining as nat, metadata@);
            }
            return Ok(at);
        }
        let size = read_length(data, at);
        let start = advance_by(data, at, 4);
        let comment = read_run(data, start, size);
        let next = advance_by(data, start, size as u64);
        match read_comment_field(comment.as_slice()) {
            None => {},
            Some(field) => match read_comment_value(comment.as_slice(), field) {
                None => {
                    return Err(FlacError::CommentWithoutValue);
                },
                Some(value) => {
                    metadata.keep_comment(field, value);
                },
            },
        }
        at = next;
        remaining -= 1;
    }
    Ok(at)
}

/// Passes over `count` tracks of a cuesheet at `position`.
fn pass_cuesheet_tracks(data: &[u8], position: usize, count: u8) -> (end: usize)
    requires
        position <= data@.len(),
    ensures
        end == cuesheet_tracks_end(data@, position as int, count as nat),
        end <= data@.len(),
{
    let mut at: usize = position;
    let mut remaining: u8 = count;
    while remaining > 0
        invariant
            at <= data@.len(),
            cuesheet_tracks_end(data@, at as int, remaining as nat) == cuesheet_tracks_end(
                data@,
                position as int,
                count as nat,
            ),
        decreases remaining,
    {
        let indices = byte_at(data, at, 35);
        let track = advance_by(data, at, 36);
        at = advance_by(data, track, 12 * indices as u64);
        remaining -= 1;
    }
    at
}

/// Reads a run of bytes that begins `offset` places after `position`.
fn read_piece(data: &[u8], position: usize, offset: usize, count: usize) -> (bytes: Vec<u8>)
    requires
        position <= data@.len(),
        offset + count <= usize::MAX,
    ensures
        bytes@ == read_at(data@, position + offset, count as nat),
{
    let mut bytes: Vec<u8> = Vec::new();
    let mut i: usize = 0;
    while i < count
        invariant
            i <= count,
            position <= data@.len(),
            offset + count <= usize::MAX,
            bytes@ == read_at(data@, position + offset, i as nat),
        decreases count - i,
    {
        bytes.push(byte_at(data, position, offset + i));
        i += 1;
        assert(bytes@ =~= read_at(data@, position + offset, i as nat));
    }
    bytes
}

/// Reads the index point of a track that begins `offset` places after
/// `position`.
fn read_index_point(data: &[u8], position: usize, offset: usize) -> (index: CuesheetTrackIndexBlock)
    requires
        position <= data@.len(),
        offset + 12 <= usize::MAX,
    ensures
        index == cuesheet_track_index(read_at(data@, position + offset, 12)),
{
    let bytes = [
        byte_at(data, position, offset),
        byte_at(data, position, offset + 1),
        byte_at(data, position, offset + 2),
        byte_at(data, position, offset + 3),
        byte_at(data, position, offset + 4),
        byte_at(data, position, offset + 5),
        byte_at(data, position, offset + 6),
        byte_at(data, position, offset + 7),
        byte_at(data, position, offset + 8),
        byte_at(data, position, offset + 9),
        byte_at(data, position, offset + 10),
        byte_at(data, position, offset + 11),
    ];
    assert(bytes@ =~= read_at(data@, position + offset, 12));
    read_cuesheet_track_index_block(&bytes)
}

/// Reads the track of a cuesheet that begins at `position`, with its index
/// points.
fn read_cuesheet_track_at(data: &[u8], position: usize) -> (track: CuesheetTrackBlock)
    requires
        position <= data@.len(),
    ensures
        is_cuesheet_track_at(track, data@, position as int),
{
    let offset_bytes = read_piece(data, position, 0, 8);
    let track_offset_in_samples = big_endian_u64(offset_bytes.as_slice());
    let flags = byte_at(data, position, 21);
    let count = byte_at(data, position, 35);
    let mut indices: Vec<CuesheetTrackIndexBlock> = Vec::new();
    let mut i: u8 = 0;
    while i < count
        invariant
            i <= count,
            position <= data@.len(),
            indices@ == Seq::new(
                i as nat,
                |k: int| cuesheet_track_index(read_at(data@, position + 36 + 12 * k, 12)),
            ),
        decreases count - i,
    {
        let index = read_index_point(data, position, 36 + 12 * (i as usize));
        indices.push(index);
        i += 1;
        assert(indices@ =~= Seq::new(
            i as nat,
            |k: int| cuesheet_track_index(read_at(data@, position + 36 + 12 * k, 12)),
        ));
    }
    CuesheetTrackBlock {
        m_track_offset_samples: track_offset_in_samples,
        m_track_number: byte_at(data, position, 8),
        m_track_isrc: read_piece(data, position, 9, 12),
        m_is_audio: flags % 2 == 1,
        m_pre_emphasis: (flags / 2) % 2 == 1,
        m_track_index_points_number: count,
        m_cuesheet_track_indices: indices,
    }
}

/// Reads a track of a cuesheet, with its index points, from the bytes that
/// begin with it. Where the bytes end before the track does, the track goes
/// on with zeros.
pub fn read_cuesheet_track_block(bytes: &[u8]) -> (track: CuesheetTrackBlock)
    ensures
        is_cuesheet_track_at(track, bytes@, 0),
{
    read_cuesheet_track_at(bytes, 0)
}

/// Reads a cuesheet, with its tracks and their index points, from the bytes
/// that begin with it. Where the bytes end before the cuesheet does, the
/// cuesheet goes on with zeros.
pub fn read_cuesheet_block(bytes: &[u8]) -> (cuesheet: CuesheetBlock)
    ensures
        is_cuesheet_at(cuesheet, bytes@, 0),
{
    let lead_in_bytes = read_piece(bytes, 0, 128, 8);
    let number_lead_in = big_endian_u64(lead_in_bytes.as_slice());
    let count = byte_at(bytes, 0, 395);
    let first = advance_by(bytes, 0, 396);
    let mut tracks: Vec<CuesheetTrackBlock> = Vec::new();
    let mut at: usize = first;
    let mut i: u8 = 0;
    while i < count
        invariant
            i <= count,
            at <= bytes@.len(),
            first <= bytes@.len(),
            at == cuesheet_tracks_end(bytes@, first as int, i as nat),
            tracks@.len() == i,
            forall|k: int|
                0 <= k < i ==> is_cuesheet_track_at(
                    #[trigger] tracks@[k],
                    bytes@,
                    cuesheet_tracks_end(bytes@, first as int, k as nat),
                ),
        decreases count - i,
    {
        let track = read_cuesheet_track_at(bytes, at);
        let indices = byte_at(bytes, at, 35);
        let body = advance_by(bytes, at, 36);
        proof {
            lemma_cuesheet_tracks_next(bytes@, first as int, i as nat);
        }
        tracks.push(track);
        at = advance_by(bytes, body, 12 * indices as u64);
        i += 1;
    }
    CuesheetBlock {
        m_media_catalog_number: read_piece(bytes, 0, 0, 128),
        m_lead_in_number: number_lead_in,
        m_is_cd: byte_at(bytes, 0, 136) % 2 == 1,
        m_track_number: count,
        m_cuesheet_tracks: tracks,
    }
}

/// Reads the block that `header` announces at `position`.
fn read_block_at(
    data: &[u8],
    position: usize,
    header: &MetaDataHeader,
    metadata: &mut FlacMetadata,
) -> (end: Result<usize, FlacError>)
    requires
        position <= data@.len(),
    ensures
        match end {
            Ok(next) => next <= data@.len() && read_block(
                data@,
                position as int,
                *header,
                old(metadata)@,
            ) == Ok::<(int, FlacMetadataView), FlacError>((next as int, final(metadata)@)),
            Err(error) => read_block(data@, position as int, *header, old(metadata)@) == Err::<
                (int, FlacMetadataView),
                FlacError,
            >(error),
        },
{
    match header.block() {
        MetaDataBlock::Padding => Ok(
            advance_by(data, position, read_block_padding(header.m_length) as u64),
        ),
        MetaDataBlock::Application => match read_block_application(header.m_length) {
            None => Err(FlacError::ApplicationBlockTooSmall),
            Some(data_count) => {
                let data_start = advance_by(data, position, 4);
                Ok(advance_by(data, data_start, data_count as u64))
            },
        },
        MetaDataBlock::SeekTable => Ok(
            advance_by(data, position, 18 * read_seek_table(header.m_length) as u64),
        ),
        MetaDataBlock::VorbisComment => {
            let vendor_length = read_length(data, position);
            let vendor = advance_by(data, position, 4);
            let list = advance_by(data, vendor, vendor_length as u64);
            let list_length = read_length(data, list);
            let comments = advance_by(data, list, 4);
            read_comment_list(data, comments, list_length, metadata)
        },
        MetaDataBlock::Cuesheet => {
            let tracks = byte_at(data, position, 395);
            let first_track = advance_by(data, position, 396);
            Ok(pass_cuesheet_tracks(data, first_track, tracks))
        },
        _ => Ok(position),
    }
}

/// Reads the blocks from `position` on, until the last one or the end of the
/// file.
fn read_block_list(
    data: &[u8],
    position: usize,
    is_last: bool,
    metadata: &mut FlacMetadata,
) -> (end: Result<(), FlacError>)
    requires
        position <= data@.len(),
    ensures
        match end {
            Ok(_) => read_blocks(data@, position as int, is_last, old(metadata)@) == Ok::<
                FlacMetadataView,
                FlacError,
            >(final(metadata)@),
            Err(error) => read_blocks(data@, position as int, is_last, old(metadata)@) == Err::<
                FlacMetadataView,
                FlacError,
            >(error),
        },
{
    let mut at: usize = position;
    let mut last: bool = is_last;
    while !last && at < data.len()
        invariant
            at <= data@.len(),
            read_blocks(data@, at as int, last, metadata@) == read_blocks(
                data@,
                position as int,
                is_last,
                old(metadata)@,
            ),
        decreases data@.len() - at,
    {
        let header = read_metadata_header(&read_four(data, at));
        let start = advance_by(data, at, 4);
        proof {
            lemma_read_block_advances(data@, start as int, header, metadata@);
        }
        match read_block_at(data, start, &header, metadata) {
            Err(error) => {
                return Err(error);
            },
            Ok(next) => {
                at = next;
                last = header.m_is_last;
            },
        }
    }
    Ok(())
}

/// Reads what is kept of the metadata of a flac file from the bytes the file
/// is made of.
pub fn read_metadata(data: &[u8]) -> (metadata: Result<FlacMetadata, FlacError>)
    ensures
        match metadata {
            Ok(metadata) => flac_metadata(data@) == Ok::<FlacMetadataView, FlacError>(metadata@),
            Err(error) => flac_metadata(data@) == Err::<FlacMetadataView, FlacError>(error),
        },
{
    let mut metadata = FlacMetadata::unknown();
    if !is_flac_file(&read_four(data, 0)) {
        return Ok(metadata);
    }
    let header_start = advance_by(data, 0, 4);
    let header = read_metadata_header(&read_four(data, header_start));
    let mut position: usize = advance_by(data, header_start, 4);
    if header.block() == MetaDataBlock::StreamInfo {
        let min_block_size = read_two(data, position);
        position = advance_by(data, position, 2);
        let multi_info = read_sixteen(data, position);
        position = advance_by(data, position, 16);
        position = advance_by(data, position, 16);
        metadata.keep_stream_information(&read_streaminfo_block(&min_block_size, &multi_info));
    }
    match read_block_list(data, position, header.m_is_last, &mut metadata) {
        Err(error) => Err(error),
        Ok(_) => Ok(metadata),
    }
}

} // verus!
