use quadrium::controller::event::{push_event_in_tmp_queue, QuEvent};
use quadrium::controller::QuInformationData;
use quadrium::controller::event_manager::DispatcherState::{Draining, Idle, Invoking, Merging, Stopped};
use quadrium::controller::event_manager::{create_event_manager, DispatcherState, EventManager};
use quadrium::controller::information::QuFieldList;
use quadrium::controller::listener::{Callback, HandlerListener, ListenerRegistry, QuHandler};
use quadrium::controller::{QuAvailableTypeInEvent, QuEventType};
use std::sync::{Arc, Mutex};

/// What the listeners of a test have seen: the name of the listener and the
/// number of the event, call after call.
type Journal = Arc<Mutex<Vec<(String, String)>>>;

fn new_journal() -> Journal {
    Arc::new(Mutex::new(Vec::new()))
}

/// A listener that writes every event it gets into the journal.
struct Recorder {
    name: String,
    journal: Journal,
}

impl QuHandler<QuEventType> for Recorder {
    fn handle(&mut self, event: &QuEvent<QuEventType>) -> Vec<QuEvent<QuEventType>> {
        let fields = event.m_event_arg.convert_to_key_map();
        self.journal.lock().unwrap().push((self.name.clone(), fields[0].2.clone()));
        Vec::new()
    }
}

/// A listener that writes every event it gets into the journal and answers it
/// with an event of another kind, which carries the same number.
struct Forwarder {
    name: String,
    answer: QuEventType,
    journal: Journal,
}

impl QuHandler<QuEventType> for Forwarder {
    fn handle(&mut self, event: &QuEvent<QuEventType>) -> Vec<QuEvent<QuEventType>> {
        let fields = event.m_event_arg.convert_to_key_map();
        self.journal.lock().unwrap().push((self.name.clone(), fields[0].2.clone()));
        let number: u32 = fields[0].2.parse().unwrap();
        vec![numbered(self.answer, number)]
    }
}

fn recorder(name: &str, journal: &Journal) -> Callback<QuEventType> {
    let recorder = Recorder { name: name.to_string(), journal: journal.clone() };
    Callback { listener: Box::new(HandlerListener::new(recorder)) }
}

fn forwarder(name: &str, answer: QuEventType, journal: &Journal) -> Callback<QuEventType> {
    let forwarder = Forwarder { name: name.to_string(), answer, journal: journal.clone() };
    Callback { listener: Box::new(HandlerListener::new(forwarder)) }
}

/// An event whose payload has one field, a number.
fn numbered(kind: QuEventType, number: u32) -> QuEvent<QuEventType> {
    let field = ("number".to_string(), QuAvailableTypeInEvent::Uint32, number.to_string());
    QuEvent { m_event_type: kind, m_event_arg: Box::new(QuFieldList { m_fields: vec![field] }) }
}

fn seen(journal: &Journal) -> Vec<(String, String)> {
    journal.lock().unwrap().clone()
}

fn entry(name: &str, number: &str) -> (String, String) {
    (name.to_string(), number.to_string())
}

fn nothing() -> Vec<(String, String)> {
    Vec::new()
}

#[test]
fn listeners_of_a_kind_are_called_in_registration_order() {
    let journal = new_journal();
    let mut manager: EventManager<QuEventType> = create_event_manager();
    manager.register_listener(QuEventType::EAskReadMusic, recorder("L1", &journal));
    manager.register_listener(QuEventType::EAskReadMusic, recorder("L2", &journal));
    manager.push_event(numbered(QuEventType::EAskReadMusic, 7));
    manager.update();
    assert_eq!(seen(&journal), vec![entry("L1", "7"), entry("L2", "7")]);
}

#[test]
fn every_listener_gets_every_event_of_its_kind_exactly_once() {
    let journal = new_journal();
    let mut manager: EventManager<QuEventType> = create_event_manager();
    manager.register_listener(QuEventType::EAskReadMusic, recorder("A", &journal));
    manager.register_listener(QuEventType::EReadMusicState, recorder("S", &journal));
    manager.register_listener(QuEventType::EAskReadMusic, recorder("B", &journal));
    manager.register_listener(QuEventType::EAskReadMusic, recorder("C", &journal));
    manager.push_event(numbered(QuEventType::EAskReadMusic, 1));
    manager.push_event(numbered(QuEventType::EReadMusicState, 2));
    manager.push_event(numbered(QuEventType::EAskReadMusic, 3));
    manager.update();
    assert_eq!(
        seen(&journal),
        vec![
            entry("A", "1"),
            entry("B", "1"),
            entry("C", "1"),
            entry("S", "2"),
            entry("A", "3"),
            entry("B", "3"),
            entry("C", "3"),
        ]
    );
    manager.update();
    assert_eq!(seen(&journal).len(), 7);
}

#[test]
fn a_listener_never_gets_an_event_of_another_kind() {
    let journal = new_journal();
    let mut manager: EventManager<QuEventType> = create_event_manager();
    manager.register_listener(QuEventType::EAskReadMusic, recorder("reads", &journal));
    manager.register_listener(QuEventType::EPlaylistRetrieved, recorder("playlists", &journal));
    manager.push_event(numbered(QuEventType::EAskOperationPlaylist, 1));
    manager.push_event(numbered(QuEventType::EPlaylistRetrieved, 2));
    manager.push_event(numbered(QuEventType::EAskRetrieveMusicDirectory, 3));
    manager.update();
    assert_eq!(seen(&journal), vec![entry("playlists", "2")]);
}

#[test]
fn an_event_without_listener_is_dropped() {
    let mut manager: EventManager<QuEventType> = create_event_manager();
    manager.push_event(numbered(QuEventType::EAskReadMusic, 1));
    assert_eq!(manager.pending_count(), 1);
    manager.update();
    assert_eq!(manager.pending_count(), 0);
}

#[test]
fn an_event_pushed_in_the_temporary_queue_waits_for_the_next_batch() {
    let journal = new_journal();
    let mut manager: EventManager<QuEventType> = create_event_manager();
    manager.register_listener(QuEventType::EAskReadMusic, recorder("L1", &journal));
    push_event_in_tmp_queue(numbered(QuEventType::EAskReadMusic, 1), manager.get_temporary_queue());
    assert_eq!(manager.get_temporary_queue().len(), 1);
    assert_eq!(manager.pending_count(), 0);
    manager.update();
    assert_eq!(seen(&journal), nothing());
    assert_eq!(manager.get_temporary_queue().len(), 0);
    assert_eq!(manager.pending_count(), 1);
    manager.update();
    assert_eq!(seen(&journal), vec![entry("L1", "1")]);
    assert_eq!(manager.pending_count(), 0);
}

#[test]
fn an_event_published_by_a_listener_is_delivered_by_the_next_batch() {
    let journal = new_journal();
    let mut manager: EventManager<QuEventType> = create_event_manager();
    manager.register_listener(
        QuEventType::EAskReadMusic,
        forwarder("model", QuEventType::EReadMusicState, &journal),
    );
    manager.register_listener(QuEventType::EReadMusicState, recorder("view", &journal));
    manager.push_event(numbered(QuEventType::EAskReadMusic, 4));
    manager.push_event(numbered(QuEventType::EAskReadMusic, 5));
    manager.update();
    assert_eq!(seen(&journal), vec![entry("model", "4"), entry("model", "5")]);
    assert_eq!(manager.pending_count(), 2);
    manager.update();
    assert_eq!(
        seen(&journal),
        vec![entry("model", "4"), entry("model", "5"), entry("view", "4"), entry("view", "5")]
    );
    assert_eq!(manager.pending_count(), 0);
}

#[test]
fn a_listener_that_answers_its_own_kind_is_called_once_in_each_batch() {
    let journal = new_journal();
    let mut manager: EventManager<QuEventType> = create_event_manager();
    manager.register_listener(
        QuEventType::EAskReadMusic,
        forwarder("echo", QuEventType::EAskReadMusic, &journal),
    );
    manager.push_event(numbered(QuEventType::EAskReadMusic, 9));
    manager.update();
    assert_eq!(seen(&journal).len(), 1);
    manager.update();
    assert_eq!(seen(&journal).len(), 2);
    manager.update();
    assert_eq!(seen(&journal), vec![entry("echo", "9"), entry("echo", "9"), entry("echo", "9")]);
}

#[test]
fn events_published_one_after_the_other_are_all_delivered_once() {
    let journal = new_journal();
    let mut manager: EventManager<QuEventType> = create_event_manager();
    manager.register_listener(QuEventType::EAskReadMusic, recorder("L", &journal));
    let mut expected = Vec::new();
    for number in 0..100u32 {
        manager.push_event(numbered(QuEventType::EAskReadMusic, number));
        expected.push(entry("L", &number.to_string()));
    }
    assert_eq!(manager.pending_count(), 100);
    assert_eq!(manager.dispatch_cycle(), DispatcherState::Idle);
    assert_eq!(seen(&journal), expected);
}

#[test]
fn events_published_by_many_owners_of_one_lock_are_all_delivered_once() {
    let journal = new_journal();
    let mut manager: EventManager<QuEventType> = create_event_manager();
    manager.register_listener(QuEventType::EAskReadMusic, recorder("L", &journal));
    let shared = Arc::new(Mutex::new(manager));
    let producers: Vec<Arc<Mutex<EventManager<QuEventType>>>> =
        (0..8).map(|_| shared.clone()).collect();
    for (number, producer) in producers.iter().enumerate() {
        producer.lock().unwrap().push_event(numbered(QuEventType::EAskReadMusic, number as u32));
    }
    while shared.lock().unwrap().dispatch_cycle() == DispatcherState::Draining {}
    let mut numbers: Vec<String> = seen(&journal).into_iter().map(|(_, number)| number).collect();
    numbers.sort();
    let expected: Vec<String> = (0..8).map(|number: u32| number.to_string()).collect();
    assert_eq!(numbers, expected);
}

#[test]
fn a_new_manager_is_idle_and_empty() {
    let mut manager: EventManager<QuEventType> = create_event_manager();
    assert_eq!(manager.state(), DispatcherState::Idle);
    assert_eq!(manager.pending_count(), 0);
    assert_eq!(manager.get_temporary_queue().len(), 0);
    assert_eq!(manager.listener_count(&QuEventType::EAskReadMusic), 0);
    assert_eq!(manager.dispatch_cycle(), DispatcherState::Idle);
}

#[test]
fn pushing_an_event_wakes_the_dispatcher() {
    let mut manager: EventManager<QuEventType> = create_event_manager();
    manager.push_event(numbered(QuEventType::EAskReadMusic, 1));
    assert_eq!(manager.state(), DispatcherState::Draining);
    assert_eq!(manager.dispatch_cycle(), DispatcherState::Idle);
    assert_eq!(manager.state(), DispatcherState::Idle);
}

#[test]
fn pushing_in_the_temporary_queue_does_not_wake_the_dispatcher() {
    let mut manager: EventManager<QuEventType> = create_event_manager();
    push_event_in_tmp_queue(numbered(QuEventType::EAskReadMusic, 1), manager.get_temporary_queue());
    assert_eq!(manager.state(), DispatcherState::Idle);
    assert_eq!(manager.dispatch_cycle(), DispatcherState::Idle);
    assert_eq!(manager.get_temporary_queue().len(), 1);
}

#[test]
fn registering_a_listener_wakes_the_dispatcher_for_what_already_waits() {
    let journal = new_journal();
    let mut manager: EventManager<QuEventType> = create_event_manager();
    push_event_in_tmp_queue(numbered(QuEventType::EAskReadMusic, 3), manager.get_temporary_queue());
    assert_eq!(manager.state(), DispatcherState::Idle);
    manager.register_listener(QuEventType::EAskReadMusic, recorder("late", &journal));
    assert_eq!(manager.state(), DispatcherState::Draining);
    assert_eq!(manager.dispatch_cycle(), DispatcherState::Draining);
    assert_eq!(seen(&journal), nothing());
    assert_eq!(manager.dispatch_cycle(), DispatcherState::Idle);
    assert_eq!(seen(&journal), vec![entry("late", "3")]);
}

#[test]
fn a_listener_registered_after_a_push_gets_the_pending_event() {
    let journal = new_journal();
    let mut manager: EventManager<QuEventType> = create_event_manager();
    manager.push_event(numbered(QuEventType::EAskReadMusic, 8));
    manager.register_listener(QuEventType::EAskReadMusic, recorder("late", &journal));
    assert_eq!(manager.dispatch_cycle(), DispatcherState::Idle);
    assert_eq!(seen(&journal), vec![entry("late", "8")]);
}

#[test]
fn the_cycle_goes_on_while_listeners_publish() {
    let journal = new_journal();
    let mut manager: EventManager<QuEventType> = create_event_manager();
    manager.register_listener(
        QuEventType::EAskReadMusic,
        forwarder("model", QuEventType::EReadMusicState, &journal),
    );
    manager.register_listener(QuEventType::EReadMusicState, recorder("view", &journal));
    manager.push_event(numbered(QuEventType::EAskReadMusic, 1));
    assert_eq!(manager.dispatch_cycle(), DispatcherState::Draining);
    assert_eq!(manager.dispatch_cycle(), DispatcherState::Idle);
    assert_eq!(seen(&journal), vec![entry("model", "1"), entry("view", "1")]);
}

#[test]
fn stop_wakes_the_dispatcher_and_stops_it() {
    let journal = new_journal();
    let mut manager: EventManager<QuEventType> = create_event_manager();
    manager.register_listener(QuEventType::EAskReadMusic, recorder("L", &journal));
    assert_eq!(manager.dispatch_cycle(), DispatcherState::Idle);
    assert_eq!(manager.state(), DispatcherState::Idle);
    manager.stop();
    assert_eq!(manager.state(), DispatcherState::Stopped);
    manager.push_event(numbered(QuEventType::EAskReadMusic, 1));
    assert_eq!(manager.dispatch_cycle(), DispatcherState::Stopped);
    assert_eq!(seen(&journal), nothing());
    assert_eq!(manager.pending_count(), 1);
}

#[test]
fn launch_lets_a_stopped_dispatcher_run_again() {
    let journal = new_journal();
    let mut manager: EventManager<QuEventType> = create_event_manager();
    manager.register_listener(QuEventType::EAskReadMusic, recorder("L", &journal));
    manager.push_event(numbered(QuEventType::EAskReadMusic, 1));
    manager.stop();
    assert_eq!(manager.dispatch_cycle(), DispatcherState::Stopped);
    manager.launch();
    assert_eq!(manager.state(), DispatcherState::Draining);
    assert_eq!(manager.dispatch_cycle(), DispatcherState::Idle);
    assert_eq!(seen(&journal), vec![entry("L", "1")]);
}

#[test]
fn update_leaves_the_wake_flag_alone() {
    let mut manager: EventManager<QuEventType> = create_event_manager();
    manager.push_event(numbered(QuEventType::EAskReadMusic, 1));
    manager.update();
    assert_eq!(manager.pending_count(), 0);
    assert_eq!(manager.state(), DispatcherState::Draining);
}

#[test]
fn a_kind_seen_for_the_first_time_gets_its_own_bucket() {
    let journal = new_journal();
    let mut manager: EventManager<QuEventType> = create_event_manager();
    manager.register_listener(QuEventType::EAskReadMusic, recorder("a", &journal));
    manager.register_listener(QuEventType::EReadMusicState, recorder("b", &journal));
    manager.register_listener(QuEventType::EAskReadMusic, recorder("c", &journal));
    assert_eq!(manager.listener_count(&QuEventType::EAskReadMusic), 2);
    assert_eq!(manager.listener_count(&QuEventType::EReadMusicState), 1);
    assert_eq!(manager.listener_count(&QuEventType::EPlaylistRetrieved), 0);
}

#[test]
fn the_dispatcher_goes_from_state_to_state() {
    assert_eq!(Idle.next(false, false), Idle);
    assert_eq!(Idle.next(false, true), Idle);
    assert_eq!(Idle.next(true, false), Draining);
    assert_eq!(Idle.next(true, true), Stopped);
    assert_eq!(Draining.next(false, false), Invoking);
    assert_eq!(Draining.next(true, true), Invoking);
    assert_eq!(Invoking.next(false, false), Merging);
    assert_eq!(Invoking.next(true, true), Merging);
    assert_eq!(Merging.next(false, false), Idle);
    assert_eq!(Merging.next(true, false), Draining);
    assert_eq!(Merging.next(true, true), Stopped);
    assert_eq!(Stopped.next(true, false), Stopped);
    assert_eq!(Stopped.next(false, false), Stopped);
}

#[test]
fn the_kinds_compare_by_value() {
    assert!(QuEventType::EAskReadMusic == QuEventType::EAskReadMusic);
    assert!(QuEventType::EAskReadMusic != QuEventType::EReadMusicState);
    assert_eq!(QuEventType::EAskRetrieveMusicDirectory.rank(), 0);
    assert_eq!(QuEventType::EAskTryRetrievePlayList.rank(), 4);
    assert_eq!(QuEventType::EMusicInformationRetrieved.rank(), 6);
    assert_eq!(QuEventType::EPlaylistRetrieved.rank(), 9);
}

#[test]
fn an_event_carries_the_fields_it_was_made_with() {
    let event = numbered(QuEventType::EOperationPlaylistState, 12);
    assert!(event.m_event_type == QuEventType::EOperationPlaylistState);
    let fields = event.m_event_arg.convert_to_key_map();
    assert_eq!(fields.len(), 1);
    assert_eq!(fields[0].0, "number");
    assert!(fields[0].1 == QuAvailableTypeInEvent::Uint32);
    assert_eq!(fields[0].2, "12");
}

#[test]
fn the_registry_calls_the_listeners_of_the_kind_of_the_event() {
    let journal = new_journal();
    let mut manager: EventManager<QuEventType> = create_event_manager();
    let mut registry: ListenerRegistry<QuEventType> = ListenerRegistry::new();
    assert_eq!(registry.listener_count(&QuEventType::EAskReadMusic), 0);
    registry.register(QuEventType::EAskReadMusic, recorder("first", &journal));
    registry.register(QuEventType::EReadMusicState, recorder("state", &journal));
    registry.register(
        QuEventType::EAskReadMusic,
        forwarder("second", QuEventType::EReadMusicState, &journal),
    );
    assert_eq!(registry.listener_count(&QuEventType::EAskReadMusic), 2);
    assert_eq!(registry.listener_count(&QuEventType::EReadMusicState), 1);
    registry.dispatch(&numbered(QuEventType::EAskReadMusic, 6), manager.get_temporary_queue());
    assert_eq!(seen(&journal), vec![entry("first", "6"), entry("second", "6")]);
    assert_eq!(manager.get_temporary_queue().len(), 1);
    registry.dispatch(&numbered(QuEventType::EPlaylistRetrieved, 7), manager.get_temporary_queue());
    assert_eq!(seen(&journal).len(), 2);
    assert_eq!(manager.get_temporary_queue().len(), 1);
}

#[test]
fn what_the_listeners_publish_is_pending_in_the_order_of_their_calls() {
    let journal = new_journal();
    let mut manager: EventManager<QuEventType> = create_event_manager();
    manager.register_listener(
        QuEventType::EAskReadMusic,
        forwarder("first", QuEventType::EReadMusicState, &journal),
    );
    manager.register_listener(
        QuEventType::EAskReadMusic,
        forwarder("second", QuEventType::EPlaylistRetrieved, &journal),
    );
    manager.register_listener(QuEventType::EReadMusicState, recorder("state", &journal));
    manager.register_listener(QuEventType::EPlaylistRetrieved, recorder("playlist", &journal));
    push_event_in_tmp_queue(numbered(QuEventType::EReadMusicState, 0), manager.get_temporary_queue());
    manager.push_event(numbered(QuEventType::EAskReadMusic, 1));
    manager.push_event(numbered(QuEventType::EAskOperationPlaylist, 9));
    manager.push_event(numbered(QuEventType::EAskReadMusic, 2));
    manager.update();
    assert_eq!(manager.pending_count(), 5);
    assert_eq!(manager.get_temporary_queue().len(), 0);
    manager.update();
    assert_eq!(
        seen(&journal),
        vec![
            entry("first", "1"),
            entry("second", "1"),
            entry("first", "2"),
            entry("second", "2"),
            entry("state", "0"),
            entry("state", "1"),
            entry("playlist", "1"),
            entry("state", "2"),
            entry("playlist", "2"),
        ]
    );
    assert_eq!(manager.pending_count(), 0);
    assert_eq!(manager.dispatch_cycle(), DispatcherState::Idle);
}

#[test]
fn a_batch_that_delivers_nothing_leaves_what_was_kept_aside() {
    let mut manager: EventManager<QuEventType> = create_event_manager();
    push_event_in_tmp_queue(numbered(QuEventType::EReadMusicState, 3), manager.get_temporary_queue());
    push_event_in_tmp_queue(numbered(QuEventType::EReadMusicState, 4), manager.get_temporary_queue());
    manager.push_event(numbered(QuEventType::EAskReadMusic, 1));
    manager.update();
    assert_eq!(manager.pending_count(), 2);
    manager.update();
    assert_eq!(manager.pending_count(), 0);
}

#[test]
fn a_handler_listener_publishes_what_it_is_given() {
    let journal = new_journal();
    let mut manager: EventManager<QuEventType> = create_event_manager();
    let mut listener =
        HandlerListener::new(Recorder { name: "r".to_string(), journal: journal.clone() });
    let event = numbered(QuEventType::EAskReadMusic, 1);
    listener.publish(&event, Vec::new(), manager.get_temporary_queue());
    assert_eq!(manager.get_temporary_queue().len(), 0);
    let answers =
        vec![numbered(QuEventType::EReadMusicState, 2), numbered(QuEventType::EReadMusicState, 3)];
    listener.publish(&event, answers, manager.get_temporary_queue());
    assert_eq!(manager.get_temporary_queue().len(), 2);
    assert_eq!(seen(&journal), nothing());
    manager.register_listener(QuEventType::EReadMusicState, recorder("state", &journal));
    manager.update();
    manager.update();
    assert_eq!(seen(&journal), vec![entry("state", "2"), entry("state", "3")]);
}
