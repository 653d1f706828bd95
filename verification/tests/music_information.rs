use quadrium::audio_reader::{
    music_information_event, read_requested_path, register_event_listeners, AudioInformation,
    AudioReader, MusicInformationService,
};
use quadrium::controller::event::QuEvent;
use quadrium::controller::information::QuFieldList;
use quadrium::controller::event_manager::{create_event_manager, DispatcherState, EventManager};
use quadrium::controller::listener::{Callback, HandlerListener, QuHandler, QuListener};
use quadrium::controller::{QuAvailableTypeInEvent, QuEventType, QuInformationData};
use quadrium::gui::gui_manager::{
    create_gui_manager, format_information_line, read_music_information_from_event,
    show_information, GUIManager,
};
use quadrium::gui::{
    ask_music_information_event, create_application_event_manager, handle_message,
    AskMusicInformation, EQuMessage,
};
use std::sync::{Arc, Mutex};

/// A reader that reads no file: it notes the path it was asked for and
/// answers with a fixed piece of music.
struct FixedReader {
    asked: Arc<Mutex<Vec<String>>>,
}

impl AudioReader for FixedReader {
    fn read_information(&self, str_path_to_music: String) -> AudioInformation {
        self.asked.lock().unwrap().push(str_path_to_music);
        AudioInformation {
            m_str_music_name: "Song".to_string(),
            m_str_music_type: "Rock".to_string(),
            m_str_artist_name: "Band".to_string(),
            m_str_tracknumber: "3".to_string(),
            m_str_album: "Record".to_string(),
            m_str_date: "1999".to_string(),
            m_str_duration: "".to_string(),
            m_rate: 48000,
            m_channel_count: 2,
            m_bits_per_sample: 24,
        }
    }
}

/// A listener that keeps the fields of every event it gets.
struct Keeper {
    kept: Arc<Mutex<Vec<Vec<(String, String)>>>>,
}

impl QuHandler<QuEventType> for Keeper {
    fn handle(&mut self, event: &QuEvent<QuEventType>) -> Vec<QuEvent<QuEventType>> {
        let fields = event.m_event_arg.convert_to_key_map();
        self.kept.lock().unwrap().push(fields.into_iter().map(|field| (field.0, field.2)).collect());
        Vec::new()
    }
}

type Kept = Arc<Mutex<Vec<Vec<(String, String)>>>>;

fn keeper(kept: &Kept) -> Callback<QuEventType> {
    Callback { listener: Box::new(HandlerListener::new(Keeper { kept: kept.clone() })) }
}

fn pair(name: &str, value: &str) -> (String, String) {
    (name.to_string(), value.to_string())
}

fn string_field(name: &str, value: &str) -> (String, QuAvailableTypeInEvent, String) {
    (name.to_string(), QuAvailableTypeInEvent::String, value.to_string())
}

fn event_with(kind: QuEventType, fields: Vec<(String, QuAvailableTypeInEvent, String)>) -> QuEvent<QuEventType> {
    QuEvent { m_event_type: kind, m_event_arg: Box::new(QuFieldList { m_fields: fields }) }
}

#[test]
fn a_request_for_music_information_is_answered_in_the_next_batch() {
    let asked = Arc::new(Mutex::new(Vec::new()));
    let kept = Arc::new(Mutex::new(Vec::new()));
    let mut manager: EventManager<QuEventType> = create_event_manager();
    manager.register_listener(QuEventType::EMusicInformationRetrieved, keeper(&kept));
    register_event_listeners(&mut manager, FixedReader { asked: asked.clone() });
    manager.push_event(event_with(
        QuEventType::EAskRetrieveMusicInformation,
        vec![string_field("path_file", "/tmp/a.flac")],
    ));

    manager.update();
    assert_eq!(*asked.lock().unwrap(), vec!["/tmp/a.flac".to_string()]);
    assert!(kept.lock().unwrap().is_empty());
    assert_eq!(manager.pending_count(), 1);

    manager.update();
    let kept = kept.lock().unwrap();
    assert_eq!(kept.len(), 1);
    assert_eq!(
        kept[0],
        vec![
            pair("music_name", "Song"),
            pair("music_type", "Rock"),
            pair("artist_name", "Band"),
            pair("track_number", "3"),
            pair("album", "Record"),
            pair("date", "1999"),
            pair("duration", ""),
            pair("track_rate", "48000"),
            pair("channel_count", "2"),
            pair("bits_per_sample", "24"),
        ]
    );
    assert_eq!(asked.lock().unwrap().len(), 1);
    assert_eq!(manager.pending_count(), 0);
}

#[test]
fn a_request_with_no_field_is_ignored() {
    let asked = Arc::new(Mutex::new(Vec::new()));
    let mut manager: EventManager<QuEventType> = create_event_manager();
    register_event_listeners(&mut manager, FixedReader { asked: asked.clone() });
    manager.push_event(event_with(QuEventType::EAskRetrieveMusicInformation, vec![]));
    assert_eq!(manager.dispatch_cycle(), DispatcherState::Idle);
    assert!(asked.lock().unwrap().is_empty());
    assert_eq!(manager.pending_count(), 0);
}

#[test]
fn a_request_with_two_fields_is_ignored() {
    let asked = Arc::new(Mutex::new(Vec::new()));
    let mut manager: EventManager<QuEventType> = create_event_manager();
    register_event_listeners(&mut manager, FixedReader { asked: asked.clone() });
    manager.push_event(event_with(
        QuEventType::EAskRetrieveMusicInformation,
        vec![string_field("path_file", "/tmp/a.flac"), string_field("other", "x")],
    ));
    assert_eq!(manager.dispatch_cycle(), DispatcherState::Idle);
    assert!(asked.lock().unwrap().is_empty());
    assert_eq!(manager.pending_count(), 0);
}

#[test]
fn the_service_answers_with_one_event_of_the_result_kind() {
    let asked = Arc::new(Mutex::new(Vec::new()));
    let mut service = MusicInformationService::new(FixedReader { asked: asked.clone() });
    let mut manager: EventManager<QuEventType> = create_event_manager();
    let request = ask_music_information_event("/music/b.flac".to_string());
    service.on_event(&request, manager.get_temporary_queue());
    assert_eq!(manager.get_temporary_queue().len(), 1);
    assert_eq!(*asked.lock().unwrap(), vec!["/music/b.flac".to_string()]);
    let kept = Arc::new(Mutex::new(Vec::new()));
    manager.register_listener(QuEventType::EMusicInformationRetrieved, keeper(&kept));
    manager.update();
    manager.update();
    assert_eq!(kept.lock().unwrap().len(), 1);
    assert_eq!(kept.lock().unwrap()[0][0], pair("music_name", "Song"));
}

#[test]
fn the_requested_path_is_the_value_of_the_only_field() {
    assert_eq!(
        read_requested_path(&vec![string_field("path_file", "/tmp/a.flac")]),
        Some("/tmp/a.flac".to_string())
    );
    assert_eq!(read_requested_path(&vec![string_field("anything", "b")]), Some("b".to_string()));
    assert_eq!(read_requested_path(&vec![]), None);
    assert_eq!(
        read_requested_path(&vec![string_field("path_file", "a"), string_field("path_file", "b")]),
        None
    );
}

#[test]
fn the_answer_is_of_the_result_kind() {
    let asked = Arc::new(Mutex::new(Vec::new()));
    let information = FixedReader { asked }.read_information("x".to_string());
    let event = music_information_event(information);
    assert!(event.m_event_type == QuEventType::EMusicInformationRetrieved);
    assert_eq!(event.m_event_arg.convert_to_key_map().len(), 10);
}

#[test]
fn the_request_event_carries_the_path() {
    let event = ask_music_information_event("/tmp/a.flac".to_string());
    assert!(event.m_event_type == QuEventType::EAskRetrieveMusicInformation);
    assert!(event.m_event_arg.convert_to_key_map() == vec![string_field("path_file", "/tmp/a.flac")]);
    let request = AskMusicInformation { m_path_to_file: "p".to_string() };
    assert!(request.convert_to_key_map() == vec![string_field("path_file", "p")]);
}

#[test]
fn asking_for_the_current_track_pushes_a_request() {
    let asked = Arc::new(Mutex::new(Vec::new()));
    let mut manager: EventManager<QuEventType> = create_event_manager();
    register_event_listeners(&mut manager, FixedReader { asked: asked.clone() });
    assert_eq!(manager.dispatch_cycle(), DispatcherState::Idle);
    handle_message(&mut manager, EQuMessage::e_load_current_track_info, "/tmp/c.flac".to_string());
    assert_eq!(manager.pending_count(), 1);
    assert_eq!(manager.state(), DispatcherState::Draining);
    manager.update();
    assert_eq!(*asked.lock().unwrap(), vec!["/tmp/c.flac".to_string()]);
}

#[test]
fn a_new_gui_manager_shows_nothing() {
    let gui_manager: GUIManager = create_gui_manager();
    assert!(!gui_manager.m_music_information_retrieved);
    assert!(gui_manager.m_current_music_information.is_empty());
}

#[test]
fn a_field_is_shown_as_name_colon_value() {
    assert_eq!(format_information_line(&string_field("album", "Record")), "album: Record");
    assert_eq!(format_information_line(&string_field("", "")), ": ");
    assert_eq!(
        format_information_line(&("rate".to_string(), QuAvailableTypeInEvent::Uint32, "44100".to_string())),
        "rate: 44100"
    );
}

#[test]
fn the_gui_shows_one_line_for_each_field_in_order() {
    let mut gui_manager = create_gui_manager();
    show_information(&mut gui_manager, &vec![string_field("b", "2"), string_field("a", "1")]);
    assert_eq!(gui_manager.m_current_music_information, vec!["b: 2".to_string(), "a: 1".to_string()]);
    show_information(&mut gui_manager, &vec![]);
    assert_eq!(gui_manager.m_current_music_information.len(), 2);
    show_information(&mut gui_manager, &vec![string_field("c", "3")]);
    assert_eq!(
        gui_manager.m_current_music_information,
        vec!["b: 2".to_string(), "a: 1".to_string(), "c: 3".to_string()]
    );
    assert!(!gui_manager.m_music_information_retrieved);
}

#[test]
fn the_gui_reads_the_fields_of_an_event() {
    let mut gui_manager = create_gui_manager();
    let event = event_with(
        QuEventType::EMusicInformationRetrieved,
        vec![string_field("music_name", "Song"), string_field("album", "Record")],
    );
    read_music_information_from_event(&mut gui_manager, &event);
    assert_eq!(
        gui_manager.m_current_music_information,
        vec!["music_name: Song".to_string(), "album: Record".to_string()]
    );
}

#[test]
fn the_gui_manager_listens_and_publishes_nothing() {
    let mut gui_manager = create_gui_manager();
    let mut manager: EventManager<QuEventType> = create_event_manager();
    let event = event_with(QuEventType::EMusicInformationRetrieved, vec![string_field("date", "1999")]);
    gui_manager.on_event(&event, manager.get_temporary_queue());
    assert_eq!(manager.get_temporary_queue().len(), 0);
    assert_eq!(gui_manager.m_current_music_information, vec!["date: 1999".to_string()]);
}

#[test]
fn the_gui_registers_for_the_retrieved_music_information() {
    let mut manager: EventManager<QuEventType> = create_event_manager();
    quadrium::gui::gui_manager::register_event_listeners(
        Callback { listener: Box::new(create_gui_manager()) },
        &mut manager,
    );
    assert_eq!(manager.listener_count(&QuEventType::EMusicInformationRetrieved), 1);
    assert_eq!(manager.listener_count(&QuEventType::EAskRetrieveMusicInformation), 0);
    assert_eq!(manager.state(), DispatcherState::Draining);
}

#[test]
fn the_music_service_registers_for_the_requests() {
    let asked = Arc::new(Mutex::new(Vec::new()));
    let mut manager: EventManager<QuEventType> = create_event_manager();
    register_event_listeners(&mut manager, FixedReader { asked });
    assert_eq!(manager.listener_count(&QuEventType::EAskRetrieveMusicInformation), 1);
    assert_eq!(manager.listener_count(&QuEventType::EMusicInformationRetrieved), 0);
    assert_eq!(manager.state(), DispatcherState::Draining);
}

#[test]
fn the_service_answers_the_fields_of_a_request() {
    let asked = Arc::new(Mutex::new(Vec::new()));
    let service = MusicInformationService::new(FixedReader { asked: asked.clone() });
    let mut manager: EventManager<QuEventType> = create_event_manager();
    service.answer(&vec![], manager.get_temporary_queue());
    assert_eq!(manager.get_temporary_queue().len(), 0);
    service.answer(
        &vec![string_field("a", "1"), string_field("b", "2")],
        manager.get_temporary_queue(),
    );
    assert_eq!(manager.get_temporary_queue().len(), 0);
    assert!(asked.lock().unwrap().is_empty());
    service.answer(&vec![string_field("path_file", "/tmp/a.flac")], manager.get_temporary_queue());
    assert_eq!(manager.get_temporary_queue().len(), 1);
    service.answer(&vec![string_field("path_file", "/tmp/b.flac")], manager.get_temporary_queue());
    assert_eq!(manager.get_temporary_queue().len(), 2);
    assert_eq!(*asked.lock().unwrap(), vec!["/tmp/a.flac".to_string(), "/tmp/b.flac".to_string()]);
}

#[test]
fn the_application_connects_both_sides_to_its_event_manager() {
    let asked = Arc::new(Mutex::new(Vec::new()));
    let kept = Arc::new(Mutex::new(Vec::new()));
    let mut manager =
        create_application_event_manager(keeper(&kept), FixedReader { asked: asked.clone() });
    assert_eq!(manager.listener_count(&QuEventType::EMusicInformationRetrieved), 1);
    assert_eq!(manager.listener_count(&QuEventType::EAskRetrieveMusicInformation), 1);
    assert_eq!(manager.listener_count(&QuEventType::EAskReadMusic), 0);
    assert_eq!(manager.pending_count(), 0);
    assert_eq!(manager.state(), DispatcherState::Draining);
    assert_eq!(manager.dispatch_cycle(), DispatcherState::Idle);
    handle_message(&mut manager, EQuMessage::e_load_current_track_info, "/tmp/a.flac".to_string());
    assert_eq!(manager.dispatch_cycle(), DispatcherState::Draining);
    assert!(kept.lock().unwrap().is_empty());
    assert_eq!(manager.dispatch_cycle(), DispatcherState::Idle);
    assert_eq!(kept.lock().unwrap().len(), 1);
    assert_eq!(kept.lock().unwrap()[0].len(), 10);
    assert_eq!(*asked.lock().unwrap(), vec!["/tmp/a.flac".to_string()]);
}

#[test]
fn the_gui_shows_the_line_of_a_request() {
    let mut gui_manager = create_gui_manager();
    let event = QuEvent {
        m_event_type: QuEventType::EMusicInformationRetrieved,
        m_event_arg: Box::new(AskMusicInformation { m_path_to_file: "/tmp/a.flac".to_string() }),
    };
    read_music_information_from_event(&mut gui_manager, &event);
    assert_eq!(gui_manager.m_current_music_information, vec!["path_file: /tmp/a.flac".to_string()]);
    assert!(!gui_manager.m_music_information_retrieved);
}

#[test]
fn what_was_found_is_published_as_it_is() {
    let asked = Arc::new(Mutex::new(Vec::new()));
    let information = FixedReader { asked }.read_information("x".to_string());
    let expected = information.convert_to_key_map();
    let mut manager: EventManager<QuEventType> = create_event_manager();
    MusicInformationService::<FixedReader>::publish(information, manager.get_temporary_queue());
    assert_eq!(manager.get_temporary_queue().len(), 1);
    let kept = Arc::new(Mutex::new(Vec::new()));
    manager.register_listener(QuEventType::EMusicInformationRetrieved, keeper(&kept));
    manager.update();
    manager.update();
    let expected: Vec<(String, String)> =
        expected.into_iter().map(|field| (field.0, field.2)).collect();
    assert_eq!(*kept.lock().unwrap(), vec![expected]);
}

#[test]
fn a_list_of_fields_is_a_payload() {
    let fields = vec![string_field("a", "1"), string_field("b", "2")];
    let payload = QuFieldList { m_fields: vec![string_field("a", "1"), string_field("b", "2")] };
    assert!(payload.convert_to_key_map() == fields);
    assert!(QuFieldList { m_fields: Vec::new() }.convert_to_key_map().is_empty());
}
