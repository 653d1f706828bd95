use quadrium::audio_reader::flac_file::{read_comment_value, read_metadata, FlacError, FlacMetadata};
use quadrium::audio_reader::flac_reader::{read_streaminfo_block, CommentField};

/// Builds the bytes of a file, piece after piece.
struct FileBytes {
    bytes: Vec<u8>,
}

impl FileBytes {
    fn flac() -> FileBytes {
        FileBytes { bytes: b"fLaC".to_vec() }
    }

    fn header(mut self, is_last: bool, block_type: u8, length: u32) -> FileBytes {
        self.bytes.push(if is_last { 0x80 | block_type } else { block_type });
        self.bytes.extend_from_slice(&length.to_be_bytes()[1..]);
        self
    }

    fn bytes(mut self, bytes: &[u8]) -> FileBytes {
        self.bytes.extend_from_slice(bytes);
        self
    }

    fn zeros(mut self, count: usize) -> FileBytes {
        self.bytes.extend(std::iter::repeat(0u8).take(count));
        self
    }

    fn length(self, length: u32) -> FileBytes {
        self.bytes(&length.to_le_bytes())
    }

    fn comment(self, comment: &[u8]) -> FileBytes {
        self.length(comment.len() as u32).bytes(comment)
    }

    /// The stream information of a file at 44100 Hz, with 2 channels and 16
    /// bits per sample.
    fn stream_information(self) -> FileBytes {
        let multi_info: u128 = (4096u128 << 112) | (44100u128 << 44) | (1u128 << 41) | (15u128 << 36) | 1000;
        self.bytes(&[0x10, 0x00]).bytes(&multi_info.to_be_bytes()).zeros(16)
    }
}

fn text(bytes: &[u8]) -> String {
    String::from_utf8(bytes.to_vec()).unwrap()
}

fn metadata_of(file: FileBytes) -> FlacMetadata {
    read_metadata(&file.bytes).unwrap()
}

fn assert_unknown(metadata: &FlacMetadata) {
    assert_eq!(metadata.m_rate, 0);
    assert_eq!(metadata.m_channel_count, 0);
    assert_eq!(metadata.m_bits_per_sample, 0);
    assert!(metadata.m_music_name.is_empty());
    assert!(metadata.m_music_type.is_empty());
    assert!(metadata.m_artist_name.is_empty());
    assert!(metadata.m_tracknumber.is_empty());
    assert!(metadata.m_album.is_empty());
    assert!(metadata.m_date.is_empty());
}

#[test]
fn nothing_is_known_of_a_file_that_is_not_flac() {
    assert_unknown(&read_metadata(b"").unwrap());
    assert_unknown(&read_metadata(b"RIFF and so on").unwrap());
    assert_unknown(&read_metadata(b"fLa").unwrap());
    assert_unknown(&FlacMetadata::unknown());
}

#[test]
fn nothing_is_known_of_a_flac_file_without_stream_information() {
    assert_unknown(&metadata_of(FileBytes::flac().header(true, 1, 0)));
    assert_unknown(&metadata_of(FileBytes::flac().header(false, 4, 0)));
}

#[test]
fn a_flac_file_that_ends_at_once_is_read_as_zeros() {
    let metadata = read_metadata(b"fLaC").unwrap();
    assert_eq!(metadata.m_rate, 0);
    assert_eq!(metadata.m_channel_count, 1);
    assert_eq!(metadata.m_bits_per_sample, 1);
    assert!(metadata.m_music_name.is_empty());
}

#[test]
fn the_first_block_is_read_only_if_it_is_the_stream_information() {
    let file = FileBytes::flac()
        .header(false, 4, 0)
        .header(true, 4, 0)
        .comment(b"vendor")
        .length(1)
        .comment(b"GENRE=Jazz");
    assert_eq!(text(&metadata_of(file).m_music_type), "Jazz");
    let file = FileBytes::flac().header(true, 4, 0).comment(b"vendor").length(1).comment(b"GENRE=Jazz");
    assert_unknown(&metadata_of(file));
}

#[test]
fn the_stream_information_gives_rate_bits_and_channels() {
    let metadata = metadata_of(FileBytes::flac().header(true, 0, 34).stream_information());
    assert_eq!(metadata.m_rate, 44100);
    assert_eq!(metadata.m_channel_count, 2);
    assert_eq!(metadata.m_bits_per_sample, 16);
    assert!(metadata.m_artist_name.is_empty());

    let mut kept = FlacMetadata::unknown();
    kept.m_album = b"Record".to_vec();
    let stream_block =
        read_streaminfo_block(&[0, 0], &((96000u128 << 44) | (5u128 << 41) | (23u128 << 36)).to_be_bytes());
    kept.keep_stream_information(&stream_block);
    assert_eq!(kept.m_rate, 96000);
    assert_eq!(kept.m_channel_count, 6);
    assert_eq!(kept.m_bits_per_sample, 24);
    assert_eq!(kept.m_album, b"Record".to_vec());
}

#[test]
fn a_stream_information_that_does_not_come_first_is_passed_over() {
    let file = FileBytes::flac().header(false, 1, 0).header(true, 0, 34).stream_information();
    assert_unknown(&metadata_of(file));
}

#[test]
fn the_comments_give_the_fields_their_values() {
    let file = FileBytes::flac()
        .header(false, 0, 34)
        .stream_information()
        .header(true, 4, 0)
        .comment(b"reference libFLAC 1.3.2")
        .length(8)
        .comment(b"ARTIST=Band")
        .comment(b"TITLE=Song")
        .comment(b"TRACKNUMBER=3")
        .comment(b"DATE=1999")
        .comment(b"ALBUM=Record")
        .comment(b"GENRE=Rock")
        .comment(b"COMMENT=none")
        .comment(b"YEAR=2001");
    let metadata = metadata_of(file);
    assert_eq!(text(&metadata.m_artist_name), "Band");
    assert_eq!(text(&metadata.m_music_name), "Song");
    assert_eq!(text(&metadata.m_tracknumber), "3");
    assert_eq!(text(&metadata.m_date), "2001");
    assert_eq!(text(&metadata.m_album), "Record");
    assert_eq!(text(&metadata.m_music_type), "Rock");
    assert_eq!(metadata.m_rate, 44100);
    assert_eq!(metadata.m_channel_count, 2);
    assert_eq!(metadata.m_bits_per_sample, 16);
}

#[test]
fn a_later_comment_replaces_an_earlier_one() {
    let file = FileBytes::flac()
        .header(false, 1, 0)
        .header(true, 4, 0)
        .comment(b"")
        .length(3)
        .comment(b"TITLE=First")
        .comment(b"ALBUMARTIST=Band")
        .comment(b"TITLE=Second");
    let metadata = metadata_of(file);
    assert_eq!(text(&metadata.m_music_name), "Second");
    assert_eq!(text(&metadata.m_artist_name), "TIST=Band");
    assert!(metadata.m_album.is_empty());
}

#[test]
fn the_blocks_between_are_passed_over() {
    let file = FileBytes::flac()
        .header(false, 0, 34)
        .stream_information()
        // Padding: an eighth of the length is passed over.
        .header(false, 1, 32)
        .zeros(4)
        // Application: an identifier and (48 - 32) / 8 - 1 bytes of data.
        .header(false, 2, 48)
        .bytes(b"abcd")
        .zeros(1)
        // Seek table: two points of 18 bytes.
        .header(false, 3, 40)
        .zeros(36)
        // Cuesheet: 396 bytes, one track with two index points.
        .header(false, 5, 0)
        .zeros(395)
        .bytes(&[1])
        .zeros(35)
        .bytes(&[2])
        .zeros(24)
        // A picture and a block of an unknown type: nothing is read.
        .header(false, 6, 1000)
        .header(false, 99, 1000)
        .header(true, 4, 0)
        .comment(b"vendor")
        .length(1)
        .comment(b"GENRE=Jazz");
    let metadata = metadata_of(file);
    assert_eq!(text(&metadata.m_music_type), "Jazz");
    assert_eq!(metadata.m_rate, 44100);
}

#[test]
fn the_blocks_end_with_the_last_one() {
    let file = FileBytes::flac()
        .header(true, 1, 0)
        .header(true, 4, 0)
        .comment(b"vendor")
        .length(1)
        .comment(b"GENRE=Jazz");
    assert_unknown(&metadata_of(file));
}

#[test]
fn the_blocks_end_with_the_file() {
    let file = FileBytes::flac()
        .header(false, 1, 8000)
        .zeros(10);
    assert_unknown(&metadata_of(file));
    let file = FileBytes::flac()
        .header(false, 1, 0)
        .header(false, 4, 0)
        .comment(b"vendor")
        .length(1)
        .comment(b"ARTIST=Band");
    assert_eq!(text(&metadata_of(file).m_artist_name), "Band");
}

#[test]
fn a_comment_cut_by_the_end_of_the_file_goes_on_with_zeros() {
    let file = FileBytes::flac()
        .header(false, 1, 0)
        .header(true, 4, 0)
        .comment(b"")
        .length(1)
        .length(10)
        .bytes(b"TITLE=So");
    let metadata = metadata_of(file);
    assert_eq!(metadata.m_music_name, vec![b'S', b'o', 0, 0]);
}

#[test]
fn an_application_block_needs_a_size_of_forty() {
    let file = FileBytes::flac().header(false, 1, 0).header(false, 2, 39).zeros(100);
    assert_eq!(read_metadata(&file.bytes).err(), Some(FlacError::ApplicationBlockTooSmall));
    let file = FileBytes::flac().header(false, 1, 0).header(true, 2, 0);
    assert_eq!(read_metadata(&file.bytes).err(), Some(FlacError::ApplicationBlockTooSmall));
    let file = FileBytes::flac().header(false, 1, 0).header(true, 2, 40).zeros(4);
    assert!(read_metadata(&file.bytes).is_ok());
    let file = FileBytes::flac().header(true, 2, 0);
    assert!(read_metadata(&file.bytes).is_ok());
}

#[test]
fn a_comment_with_a_tag_needs_a_value() {
    let file = FileBytes::flac()
        .header(false, 1, 0)
        .header(true, 4, 0)
        .comment(b"vendor")
        .length(2)
        .comment(b"TITLE=Song")
        .comment(b"ARTIST");
    assert_eq!(read_metadata(&file.bytes).err(), Some(FlacError::CommentWithoutValue));
    let file = FileBytes::flac()
        .header(false, 1, 0)
        .header(true, 4, 0)
        .comment(b"vendor")
        .length(1)
        .comment(&[b'A', b'R', b'T', b'I', b'S', b'T', 0xE9, b'x']);
    assert_eq!(read_metadata(&file.bytes).err(), Some(FlacError::CommentWithoutValue));
}

#[test]
fn the_value_of_a_comment_is_what_follows_the_tag_and_the_sign() {
    assert_eq!(read_comment_value(b"ARTIST=Band", CommentField::Artist), Some(b"Band".to_vec()));
    assert_eq!(read_comment_value(b"ARTIST=", CommentField::Artist), Some(Vec::new()));
    assert_eq!(read_comment_value(b"ARTIST", CommentField::Artist), None);
    assert_eq!(read_comment_value(b"xxTITLE=Song", CommentField::Title), Some(b"E=Song".to_vec()));
    assert_eq!(
        read_comment_value(&[0xE9, b'D', b'A', b'T', b'E', b'=', b'1'], CommentField::Date),
        Some(vec![b'E', b'=', b'1'])
    );
}

#[test]
fn a_comment_gives_its_field_a_value() {
    let mut metadata = FlacMetadata::unknown();
    metadata.keep_comment(CommentField::Artist, b"Band".to_vec());
    metadata.keep_comment(CommentField::Title, b"Song".to_vec());
    metadata.keep_comment(CommentField::TrackNumber, b"3".to_vec());
    metadata.keep_comment(CommentField::Date, b"1999".to_vec());
    metadata.keep_comment(CommentField::Album, b"Record".to_vec());
    metadata.keep_comment(CommentField::Genre, b"Rock".to_vec());
    assert_eq!(text(&metadata.m_artist_name), "Band");
    assert_eq!(text(&metadata.m_music_name), "Song");
    assert_eq!(text(&metadata.m_tracknumber), "3");
    assert_eq!(text(&metadata.m_date), "1999");
    assert_eq!(text(&metadata.m_album), "Record");
    assert_eq!(text(&metadata.m_music_type), "Rock");
    metadata.keep_comment(CommentField::Year, b"2001".to_vec());
    assert_eq!(text(&metadata.m_date), "2001");
    assert_eq!(text(&metadata.m_artist_name), "Band");
    assert_eq!(metadata.m_rate, 0);
}

#[test]
fn the_comments_end_with_the_file() {
    let file = FileBytes::flac()
        .header(false, 1, 0)
        .header(true, 4, 0)
        .comment(b"vendor")
        .length(u32::MAX)
        .comment(b"TITLE=Song");
    let metadata = metadata_of(file);
    assert_eq!(text(&metadata.m_music_name), "Song");
    assert!(metadata.m_artist_name.is_empty());
}
