//! The presentation side of the application, as far as it talks to the event
//! bus: the request it sends and the listener that takes the answer.

pub mod gui_manager;

use crate::audio_reader::string_field;
use crate::audio_reader::{
    is_music_information, register_event_listeners, requested_path, service_answer, AudioReader,
};
use crate::controller::dispatch::{
    events_of_kind, has_kind, lemma_listeners_of_absent_kind, BucketView, Delivery,
};
use crate::controller::event::QuEvent;
use crate::controller::event_manager::{
    batch_step, create_event_manager, EventManager, EventManagerView,
};
use crate::controller::listener::{Callback, ListenerRegistry};
use crate::controller::{lemma_event_types_compare_by_value, QuEventType};
use crate::controller::information::{
    key_map_view, QuAvailableTypeInEvent, QuField, QuFieldView, QuInformationData,
};
use vstd::prelude::*;

verus! {

/// The request for the information of one piece of music.
pub struct AskMusicInformation {
    /// The path of the audio file.
    pub m_path_to_file: String,
}

impl AskMusicInformation {
    /// One field: the path of the file.
    pub open spec fn key_map(&self) -> Seq<QuFieldView> {
        seq![string_field("path_file"@, self.m_path_to_file@)]
    }
}

impl QuInformationData for AskMusicInformation {
    open spec fn fields(&self) -> Seq<QuFieldView> {
        self.key_map()
    }

    fn convert_to_key_map(&self) -> (key_map: Vec<QuField>) {
        let mut vec: Vec<QuField> = Vec::new();
        vec.push(
            (String::from_str("path_file"), QuAvailableTypeInEvent::String, self.m_path_to_file.clone()),
        );
        assert(key_map_view(vec@) =~= self.key_map());
        vec
    }
}

/// What the user can ask of the GUI.
#[allow(non_camel_case_types)]
#[derive(PartialEq, Eq, Structural, Clone, Copy, Debug)]
pub enum EQuMessage {
    /// Load the information of the current track.
    e_load_current_track_info,
}

/// The event that asks for the information of the file at `path_to_file`:
/// it carries one field, the path.
pub fn ask_music_information_event(path_to_file: String) -> (event: QuEvent<QuEventType>)
    ensures
        event.m_event_type == QuEventType::EAskRetrieveMusicInformation,
        event.m_event_arg.fields() == seq![string_field("path_file"@, path_to_file@)],
{
    QuEvent {
        m_event_type: QuEventType::EAskRetrieveMusicInformation,
        m_event_arg: Box::new(AskMusicInformation { m_path_to_file: path_to_file }),
    }
}

/// What a message of the user does to the event manager: asking to load the
/// information of the current track pushes one event of kind
/// `EAskRetrieveMusicInformation`, which carries the path `path_to_file`.
pub fn handle_message(
    event_manager: &mut EventManager<QuEventType>,
    message: EQuMessage,
    path_to_file: String,
)
    ensures
        final(event_manager)@ == (EventManagerView {
            pending: final(event_manager)@.pending,
            need_update: true,
            ..old(event_manager)@
        }),
        final(event_manager)@.pending.len() == old(event_manager)@.pending.len() + 1,
        final(event_manager)@.pending.drop_last() == old(event_manager)@.pending,
        final(event_manager)@.pending.last().m_event_type
            == QuEventType::EAskRetrieveMusicInformation,
        final(event_manager)@.pending.last().m_event_arg.fields() == seq![
            string_field("path_file"@, path_to_file@),
        ],
        final(event_manager).heard_as(old(event_manager)),
{
    match message {
        EQuMessage::e_load_current_track_info => {
            event_manager.push_event(ask_music_information_event(path_to_file));
            assert(event_manager@.pending.drop_last() =~= old(event_manager)@.pending);
        },
    }
}

/// Builds the event manager of the application and connects the two sides
/// to it: `gui_listener` is registered for the music information that was
/// retrieved, then the service that retrieves it, which reads the files with
/// `reader`, is registered for the requests. The dispatcher is free to run.
pub fn create_application_event_manager<Reader>(
    gui_listener: Callback<QuEventType>,
    reader: Reader,
) -> (event_manager: EventManager<QuEventType>) where Reader: AudioReader + Send + 'static
    ensures
        event_manager.wf(),
        event_manager@ == (EventManagerView {
            pending: Seq::<QuEvent<QuEventType>>::empty(),
            registry: seq![
                BucketView { kind: QuEventType::EMusicInformationRetrieved, listeners: 1 },
                BucketView { kind: QuEventType::EAskRetrieveMusicInformation, listeners: 1 },
            ],
            deferred: Seq::<QuEvent<QuEventType>>::empty(),
            delivered: Seq::<Delivery<QuEventType>>::empty(),
            need_update: true,
            stop_update: false,
        }),
        event_manager.heard_by(0, 0) == gui_listener.listener.received(),
        event_manager.heard_by(1, 0) == Seq::<QuEvent<QuEventType>>::empty(),
        event_manager.answers_of(0, 0) == gui_listener.listener.published(),
        event_manager.answers_of(1, 0) == Seq::<Seq<QuEvent<QuEventType>>>::empty(),
        forall|event: QuEvent<QuEventType>, answer: Seq<QuEvent<QuEventType>>|
            #[trigger] event_manager.may_answer_at(0, 0, event, answer)
                == gui_listener.listener.may_answer(event, answer),
        forall|event: QuEvent<QuEventType>, answer: Seq<QuEvent<QuEventType>>|
            #[trigger] event_manager.may_answer_at(1, 0, event, answer) == service_answer(
                event,
                answer,
            ),
{
    proof {
        lemma_event_types_compare_by_value();
    }
    let mut event_manager = create_event_manager::<QuEventType>();
    let ghost none = event_manager@.registry;
    gui_manager::register_event_listeners(gui_listener, &mut event_manager);
    let ghost one = event_manager@.registry;
    proof {
        assert(!has_kind(none, QuEventType::EMusicInformationRetrieved));
        lemma_listeners_of_absent_kind(none, QuEventType::EMusicInformationRetrieved);
        assert(one =~= seq![
            BucketView { kind: QuEventType::EMusicInformationRetrieved, listeners: 1 },
        ]);
        assert(!has_kind(one, QuEventType::EAskRetrieveMusicInformation));
        lemma_listeners_of_absent_kind(one, QuEventType::EAskRetrieveMusicInformation);
    }
    let ghost with_gui = event_manager;
    register_event_listeners(&mut event_manager, reader);
    let ghost with_both = event_manager;
    event_manager.launch();
    proof {
        with_gui.lemma_listeners();
        with_both.lemma_listeners();
        assert(with_both.heard_by(0, 0) == with_gui.heard_by(0, 0));
        assert(with_both.answers_of(0, 0) == with_gui.answers_of(0, 0));
        assert(event_manager.heard_by(0, 0) == with_both.heard_by(0, 0));
        assert(event_manager.heard_by(1, 0) == with_both.heard_by(1, 0));
        assert(event_manager.answers_of(0, 0) == with_both.answers_of(0, 0));
        assert(event_manager.answers_of(1, 0) == with_both.answers_of(1, 0));
        assert forall|event: QuEvent<QuEventType>, answer: Seq<QuEvent<QuEventType>>|
            #[trigger] event_manager.may_answer_at(0, 0, event, answer)
                == gui_listener.listener.may_answer(event, answer) by {
            assert(with_both.may_answer_at(0, 0, event, answer) == with_gui.may_answer_at(
                0,
                0,
                event,
                answer,
            ));
            assert(event_manager.may_answer_at(0, 0, event, answer) == with_both.may_answer_at(
                0,
                0,
                event,
                answer,
            ));
        }
        assert forall|event: QuEvent<QuEventType>, answer: Seq<QuEvent<QuEventType>>|
            #[trigger] event_manager.may_answer_at(1, 0, event, answer) == service_answer(
                event,
                answer,
            ) by {
            assert(event_manager.may_answer_at(1, 0, event, answer) == with_both.may_answer_at(
                1,
                0,
                event,
                answer,
            ));
        }
        assert(event_manager@.registry =~= seq![
            BucketView { kind: QuEventType::EMusicInformationRetrieved, listeners: 1 },
            BucketView { kind: QuEventType::EAskRetrieveMusicInformation, listeners: 1 },
        ]);
    }
    event_manager
}

/// The two sides as `create_application_event_manager` connects them: the
/// listener of the gui alone in the first bucket, for the music information
/// that was retrieved, and the service that retrieves it alone in the second,
/// for the requests.
pub open spec fn is_connected(event_manager: &EventManager<QuEventType>) -> bool {
    &&& event_manager@.registry == seq![
        BucketView { kind: QuEventType::EMusicInformationRetrieved, listeners: 1 },
        BucketView { kind: QuEventType::EAskRetrieveMusicInformation, listeners: 1 },
    ]
    &&& forall|event: QuEvent<QuEventType>, answer: Seq<QuEvent<QuEventType>>|
        #[trigger] event_manager.may_answer_at(1, 0, event, answer) == service_answer(event, answer)
}

/// A request for music information is answered in the next batch. When the
/// request, which carries one field, is all that is pending and nothing is kept
/// aside, then after one batch one event is pending and no more: it is of
/// kind `EMusicInformationRetrieved` and carries the ten fields of a piece of
/// music, under their names and in their order. The batch after that one
/// delivers this event to the listener of the gui, once, and nothing else.
pub proof fn lemma_request_is_answered(
    before: &EventManager<QuEventType>,
    between: &EventManager<QuEventType>,
    after: &EventManager<QuEventType>,
    request: QuEvent<QuEventType>,
)
    requires
        is_connected(before),
        request.m_event_type == QuEventType::EAskRetrieveMusicInformation,
        requested_path(request.m_event_arg.fields()) is Some,
        before@.pending == seq![request],
        before@.deferred == Seq::<QuEvent<QuEventType>>::empty(),
        batch_step(before@, between@),
        between.answered_batch(before, before@.pending),
        between@.pending == before@.deferred + between.published_in(before, before@.pending),
        after.heard_batch(between, between@.pending),
    ensures
        between@.pending.len() == 1,
        between@.pending[0].m_event_type == QuEventType::EMusicInformationRetrieved,
        is_music_information(between@.pending[0].m_event_arg.fields()),
        after.heard_by(0, 0) == between.heard_by(0, 0).push(between@.pending[0]),
{
    before.lemma_listeners();
    let first = before.listeners();
    let then = between.listeners();
    let nobody = Seq::<QuEvent<QuEventType>>::empty();
    let kind = QuEventType::EAskRetrieveMusicInformation;
    let answer = then.answers_of(1, 0)[first.answers_of(1, 0).len() + 0int];
    assert(before@.pending.drop_last() =~= nobody);
    assert(before@.pending.last() == request);
    assert(events_of_kind(nobody, kind) =~= nobody);
    assert(events_of_kind(before@.pending, kind) =~= seq![request]) by {
        reveal_with_fuel(events_of_kind, 2);
    }
    assert(first.may_answer_at(1, 0, events_of_kind(before@.pending, kind)[0], answer));
    assert(before.may_answer_at(1, 0, request, answer));
    assert(service_answer(request, answer));
    assert(then.bucket_answers(&first, 1, 1, 0) =~= answer) by {
        reveal_with_fuel(ListenerRegistry::bucket_answers, 2);
    }
    assert(then.event_answers(&first, 2, request, nobody) =~= answer) by {
        reveal_with_fuel(ListenerRegistry::event_answers, 3);
    }
    assert(then.batch_answers(&first, before@.pending) =~= answer) by {
        reveal_with_fuel(ListenerRegistry::batch_answers, 2);
    }
    assert(between@.pending =~= answer);
    assert(events_of_kind(between@.pending, QuEventType::EMusicInformationRetrieved) =~= seq![
        between@.pending[0],
    ]) by {
        reveal_with_fuel(events_of_kind, 2);
        assert(between@.pending.drop_last() =~= nobody);
    }
    assert(between@.registry[0].kind == QuEventType::EMusicInformationRetrieved);
    assert(after.heard_by(0, 0) == between.heard_by(0, 0) + events_of_kind(
        between@.pending,
        between@.registry[0].kind,
    ));
    assert(between.heard_by(0, 0) + seq![between@.pending[0]] =~= between.heard_by(0, 0).push(
        between@.pending[0],
    ));
}

/// A request that is not well formed is ignored. When a request whose
/// payload has not exactly one field is all that is pending and nothing is
/// kept aside, then after one batch nothing is pending.
pub proof fn lemma_malformed_request_is_ignored(
    before: &EventManager<QuEventType>,
    between: &EventManager<QuEventType>,
    request: QuEvent<QuEventType>,
)
    requires
        is_connected(before),
        request.m_event_type == QuEventType::EAskRetrieveMusicInformation,
        requested_path(request.m_event_arg.fields()) is None,
        before@.pending == seq![request],
        before@.deferred == Seq::<QuEvent<QuEventType>>::empty(),
        between.answered_batch(before, before@.pending),
        between@.pending == before@.deferred + between.published_in(before, before@.pending),
    ensures
        between@.pending == Seq::<QuEvent<QuEventType>>::empty(),
{
    before.lemma_listeners();
    let first = before.listeners();
    let then = between.listeners();
    let nobody = Seq::<QuEvent<QuEventType>>::empty();
    let kind = QuEventType::EAskRetrieveMusicInformation;
    let answer = then.answers_of(1, 0)[first.answers_of(1, 0).len() + 0int];
    assert(before@.pending.drop_last() =~= nobody);
    assert(before@.pending.last() == request);
    assert(events_of_kind(nobody, kind) =~= nobody);
    assert(events_of_kind(before@.pending, kind) =~= seq![request]) by {
        reveal_with_fuel(events_of_kind, 2);
    }
    assert(first.may_answer_at(1, 0, events_of_kind(before@.pending, kind)[0], answer));
    assert(before.may_answer_at(1, 0, request, answer));
    assert(service_answer(request, answer));
    assert(then.bucket_answers(&first, 1, 1, 0) =~= answer) by {
        reveal_with_fuel(ListenerRegistry::bucket_answers, 2);
    }
    assert(then.event_answers(&first, 2, request, nobody) =~= answer) by {
        reveal_with_fuel(ListenerRegistry::event_answers, 3);
    }
    assert(then.batch_answers(&first, before@.pending) =~= answer) by {
        reveal_with_fuel(ListenerRegistry::batch_answers, 2);
    }
    assert(between@.pending =~= nobody);
}

} // verus!
