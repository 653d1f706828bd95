use quadrium::audio_reader::AudioInformation;
use quadrium::controller::information::decimal_string;
use quadrium::controller::{QuAvailableTypeInEvent, QuInformationData};
use quadrium::gui::AskMusicInformation;

fn field(name: &str, value: &str) -> (String, QuAvailableTypeInEvent, String) {
    (name.to_string(), QuAvailableTypeInEvent::String, value.to_string())
}

#[test]
fn numbers_are_written_in_decimal() {
    assert_eq!(decimal_string(0), "0");
    assert_eq!(decimal_string(7), "7");
    assert_eq!(decimal_string(9), "9");
    assert_eq!(decimal_string(10), "10");
    assert_eq!(decimal_string(44100), "44100");
    assert_eq!(decimal_string(1234567890), "1234567890");
    assert_eq!(decimal_string(u64::MAX), "18446744073709551615");
}

#[test]
fn decimal_is_what_the_standard_library_writes() {
    for number in [0u64, 1, 9, 10, 11, 99, 100, 101, 255, 256, 65535, 999_999, 1_000_000] {
        assert_eq!(decimal_string(number), number.to_string());
    }
}

#[test]
fn audio_information_has_ten_fields_in_order() {
    let information = AudioInformation {
        m_str_music_name: "Song".to_string(),
        m_str_music_type: "Rock".to_string(),
        m_str_artist_name: "Band".to_string(),
        m_str_tracknumber: "3".to_string(),
        m_str_album: "Record".to_string(),
        m_str_date: "1999".to_string(),
        m_str_duration: "".to_string(),
        m_rate: 44100,
        m_channel_count: 2,
        m_bits_per_sample: 16,
    };
    let key_map = information.convert_to_key_map();
    let expected = vec![
        field("music_name", "Song"),
        field("music_type", "Rock"),
        field("artist_name", "Band"),
        field("track_number", "3"),
        field("album", "Record"),
        field("date", "1999"),
        field("duration", ""),
        field("track_rate", "44100"),
        field("channel_count", "2"),
        field("bits_per_sample", "16"),
    ];
    assert!(key_map == expected);
}

#[test]
fn a_request_has_one_field() {
    let request = AskMusicInformation { m_path_to_file: "/tmp/a.flac".to_string() };
    let key_map = request.convert_to_key_map();
    assert!(key_map == vec![field("path_file", "/tmp/a.flac")]);
}
