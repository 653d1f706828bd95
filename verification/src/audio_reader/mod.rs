//! The audio side of the application: what is known of a piece of music, and
//! the service that answers a request for it over the event bus.

pub mod flac_file;
pub mod flac_reader;

use crate::controller::event::{push_event_in_tmp_queue, EventQueue, QuEvent};
use crate::controller::event_manager::{EventManager, EventManagerView};
use crate::controller::dispatch::{bucket_for, listeners_of, with_listener};
use crate::controller::information::{
    decimal, decimal_string, key_map_view, QuAvailableTypeInEvent, QuField, QuFieldView,
    QuInformationData,
};
use crate::controller::listener::{Callback, QuListener};
use crate::controller::QuEventType;
use vstd::prelude::*;

verus! {

/// AudioInformation
/// Structure that define all the information needed to define a title
pub struct AudioInformation {
    pub m_str_music_name: String,
    pub m_str_music_type: String,
    pub m_str_artist_name: String,
    pub m_str_tracknumber: String,
    pub m_str_album: String,
    pub m_str_date: String,
    pub m_str_duration: String,
    pub m_rate: u32,
    pub m_channel_count: u8,
    pub m_bits_per_sample: u8,
}

/// A field whose value is a string.
pub open spec fn string_field(name: Seq<char>, value: Seq<char>) -> QuFieldView {
    (name, QuAvailableTypeInEvent::String, value)
}

impl AudioInformation {
    /// The ten fields of a piece of music, always in this order. The three
    /// numbers travel in decimal, tagged as strings like the rest.
    pub open spec fn key_map(&self) -> Seq<QuFieldView> {
        seq![
            string_field("music_name"@, self.m_str_music_name@),
            string_field("music_type"@, self.m_str_music_type@),
            string_field("artist_name"@, self.m_str_artist_name@),
            string_field("track_number"@, self.m_str_tracknumber@),
            string_field("album"@, self.m_str_album@),
            string_field("date"@, self.m_str_date@),
            string_field("duration"@, self.m_str_duration@),
            string_field("track_rate"@, decimal(self.m_rate as nat)),
            string_field("channel_count"@, decimal(self.m_channel_count as nat)),
            string_field("bits_per_sample"@, decimal(self.m_bits_per_sample as nat)),
        ]
    }
}

impl QuInformationData for AudioInformation {
    open spec fn fields(&self) -> Seq<QuFieldView> {
        self.key_map()
    }

    /// Transforms all the information to a vector of tuples.
    fn convert_to_key_map(&self) -> (key_map: Vec<QuField>) {
        let mut key_map: Vec<QuField> = Vec::new();
        key_map.push(
            (String::from_str("music_name"), QuAvailableTypeInEvent::String, self.m_str_music_name.clone()),
        );
        key_map.push(
            (String::from_str("music_type"), QuAvailableTypeInEvent::String, self.m_str_music_type.clone()),
        );
        key_map.push(
            (String::from_str("artist_name"), QuAvailableTypeInEvent::String, self.m_str_artist_name.clone()),
        );
        key_map.push(
            (String::from_str("track_number"), QuAvailableTypeInEvent::String, self.m_str_tracknumber.clone()),
        );
        key_map.push((String::from_str("album"), QuAvailableTypeInEvent::String, self.m_str_album.clone()));
        key_map.push((String::from_str("date"), QuAvailableTypeInEvent::String, self.m_str_date.clone()));
        key_map.push(
            (String::from_str("duration"), QuAvailableTypeInEvent::String, self.m_str_duration.clone()),
        );
        key_map.push(
            (String::from_str("track_rate"), QuAvailableTypeInEvent::String, decimal_string(self.m_rate as u64)),
        );
        key_map.push(
            (
                String::from_str("channel_count"),
                QuAvailableTypeInEvent::String,
                decimal_string(self.m_channel_count as u64),
            ),
        );
        key_map.push(
            (
                String::from_str("bits_per_sample"),
                QuAvailableTypeInEvent::String,
                decimal_string(self.m_bits_per_sample as u64),
            ),
        );
        assert(key_map_view(key_map@) =~= self.key_map());
        key_map
    }
}

/// Interface to create reader of music file.
/// Quadrium can read different audio files such as WAV, Flac... This
/// interface defines the way to create the reader of these files.
pub trait AudioReader {
    /// Read information about the audio file at the given path.
    fn read_information(&self, str_path_to_music: String) -> AudioInformation;
}

/// The file that a request for music information asks about: the value of
/// the only field of the request. A request with no field, or with more than
/// one, asks about nothing.
pub open spec fn requested_path(key_map: Seq<QuFieldView>) -> Option<Seq<char>> {
    if key_map.len() == 1 {
        Some(key_map[0].2)
    } else {
        None
    }
}

/// Finds in the fields of a request the path of the file it asks about.
pub fn read_requested_path(key_map: &Vec<QuField>) -> (path: Option<String>)
    ensures
        match path {
            Some(path) => requested_path(key_map_view(key_map@)) == Some(path@),
            None => requested_path(key_map_view(key_map@)) is None,
        },
{
    if key_map.len() != 1 {
        return None;
    }
    Some(key_map[0].2.clone())
}

/// The service that answers the requests for music information: it has the
/// requested file read and publishes what was found.
pub struct MusicInformationService<Reader> {
    /// Reads the audio files.
    pub m_reader: Reader,
    /// Every request the service was called with.
    pub m_received: Ghost<Seq<QuEvent<QuEventType>>>,
    /// What the service published in each call.
    pub m_published: Ghost<Seq<Seq<QuEvent<QuEventType>>>>,
}

/// The event that answers a request for music information: it carries what
/// was found in the file.
pub fn music_information_event(audio_information: AudioInformation) -> (event: QuEvent<QuEventType>)
    ensures
        event.m_event_type == QuEventType::EMusicInformationRetrieved,
        event.m_event_arg.fields() == audio_information.key_map(),
{
    QuEvent { m_event_type: QuEventType::EMusicInformationRetrieved, m_event_arg: Box::new(audio_information) }
}

/// The fields are those of the information of some piece of music: the ten
/// of them, under their names and in their order.
pub open spec fn is_music_information(fields: Seq<QuFieldView>) -> bool {
    exists|audio_information: AudioInformation| fields == #[trigger] audio_information.key_map()
}

/// The temporary queue after the service has answered a request: one event
/// was added to it, of kind `EMusicInformationRetrieved`, which carries the
/// information of a piece of music.
pub open spec fn answered(
    before: Seq<QuEvent<QuEventType>>,
    after: Seq<QuEvent<QuEventType>>,
) -> bool {
    &&& after.len() == before.len() + 1
    &&& after.drop_last() == before
    &&& after.last().m_event_type == QuEventType::EMusicInformationRetrieved
    &&& is_music_information(after.last().m_event_arg.fields())
}

/// What the service may publish when it is called with the request `event`:
/// nothing if what the request carries has not exactly one field, and else
/// one event of kind `EMusicInformationRetrieved`, which carries the
/// information of a piece of music.
pub open spec fn service_answer(event: QuEvent<QuEventType>, answer: Seq<QuEvent<QuEventType>>) -> bool {
    if requested_path(event.m_event_arg.fields()) is None {
        answer.len() == 0
    } else {
        answered(Seq::empty(), answer)
    }
}

impl<Reader: AudioReader> MusicInformationService<Reader> {
    /// The service that reads the files with `reader` and was not called
    /// yet.
    pub fn new(reader: Reader) -> (service: Self)
        ensures
            service.m_reader == reader,
            service.m_received@ == Seq::<QuEvent<QuEventType>>::empty(),
            service.m_published@ == Seq::<Seq<QuEvent<QuEventType>>>::empty(),
    {
        MusicInformationService {
            m_reader: reader,
            m_received: Ghost(Seq::empty()),
            m_published: Ghost(Seq::empty()),
        }
    }

    /// Publishes what the reader found: one event of kind
    /// `EMusicInformationRetrieved` that carries it is pushed into the
    /// temporary queue.
    pub fn publish(audio_information: AudioInformation, tmp_event_queue: &mut EventQueue<QuEventType>)
        ensures
            final(tmp_event_queue)@.len() == old(tmp_event_queue)@.len() + 1,
            final(tmp_event_queue)@.drop_last() == old(tmp_event_queue)@,
            final(tmp_event_queue)@.last().m_event_type == QuEventType::EMusicInformationRetrieved,
            final(tmp_event_queue)@.last().m_event_arg.fields() == audio_information.key_map(),
    {
        push_event_in_tmp_queue(music_information_event(audio_information), tmp_event_queue);
        assert(tmp_event_queue@.drop_last() =~= old(tmp_event_queue)@);
    }

    /// Answers a request, given the fields that the request carries. If
    /// there is exactly one field, its value is the path of a file: the reader
    /// reads it, and what it found is published as `publish` says. Any other
    /// request is ignored.
    pub fn answer(&self, key_map: &Vec<QuField>, tmp_event_queue: &mut EventQueue<QuEventType>)
        ensures
            requested_path(key_map_view(key_map@)) is None ==> final(tmp_event_queue)@ == old(
                tmp_event_queue,
            )@,
            requested_path(key_map_view(key_map@)) is Some ==> answered(
                old(tmp_event_queue)@,
                final(tmp_event_queue)@,
            ),
    {
        match read_requested_path(key_map) {
            None => {},
            Some(path) => {
                let audio_information = self.m_reader.read_information(path);
                let ghost found = audio_information;
                Self::publish(audio_information, tmp_event_queue);
                assert(tmp_event_queue@.last().m_event_arg.fields() == found.key_map());
            },
        }
    }
}

impl<Reader: AudioReader + Send> QuListener<QuEventType> for MusicInformationService<Reader> {
    open spec fn received(&self) -> Seq<QuEvent<QuEventType>> {
        self.m_received@
    }

    open spec fn published(&self) -> Seq<Seq<QuEvent<QuEventType>>> {
        self.m_published@
    }

    open spec fn may_answer(&self, event: QuEvent<QuEventType>, answer: Seq<QuEvent<QuEventType>>) -> bool {
        service_answer(event, answer)
    }

    /// Takes a request and answers the fields that it carries: a request
    /// with exactly one field gets its answer published, any other is
    /// ignored. The reader stays as it was.
    fn on_event(&mut self, event: &QuEvent<QuEventType>, tmp_event_queue: &mut EventQueue<QuEventType>)
        ensures
            requested_path(event.m_event_arg.fields()) is None ==> final(tmp_event_queue)@ == old(
                tmp_event_queue,
            )@,
            requested_path(event.m_event_arg.fields()) is Some ==> answered(
                old(tmp_event_queue)@,
                final(tmp_event_queue)@,
            ),
            final(self).m_reader == old(self).m_reader,
    {
        let argument = event.m_event_arg.convert_to_key_map();
        self.answer(&argument, tmp_event_queue);
        proof {
            self.m_received@ = self.m_received@.push(*event);
            self.m_published@ = self.m_published@.push(
                tmp_event_queue@.skip(old(tmp_event_queue)@.len() as int),
            );
            let answer = tmp_event_queue@.skip(old(tmp_event_queue)@.len() as int);
            if requested_path(event.m_event_arg.fields()) is Some {
                assert(old(tmp_event_queue)@ =~= tmp_event_queue@.drop_last());
                assert(answer.len() == 1);
                assert(answer.last() == tmp_event_queue@.last());
                assert(answer.drop_last() =~= Seq::<QuEvent<QuEventType>>::empty());
            } else {
                assert(answer.len() == 0);
            }
        }
    }
}

/// Register all the event listeners dedicated to the audio/music: the
/// service that answers `EAskRetrieveMusicInformation`, reading the files
/// with `reader`. It comes after the listeners already registered for that
/// kind, which stay where they are, and has received nothing yet. It is a
/// listener that answers as `service_answer` says.
///
/// #Params
/// event_manager: the event manager of the application
/// reader: what reads the audio files
pub fn register_event_listeners<Reader: AudioReader + Send + 'static>(
    event_manager: &mut EventManager<QuEventType>,
    reader: Reader,
)
    requires
        old(event_manager).wf(),
    ensures
        final(event_manager).wf(),
        final(event_manager)@ == (EventManagerView {
            registry: with_listener(
                old(event_manager)@.registry,
                QuEventType::EAskRetrieveMusicInformation,
            ),
            need_update: true,
            ..old(event_manager)@
        }),
        final(event_manager).heard_as(old(event_manager)),
        final(event_manager).heard_by(
            bucket_for(old(event_manager)@.registry, QuEventType::EAskRetrieveMusicInformation),
            listeners_of(
                old(event_manager)@.registry,
                QuEventType::EAskRetrieveMusicInformation,
            ) as int,
        ) == Seq::<QuEvent<QuEventType>>::empty(),
        final(event_manager).answers_of(
            bucket_for(old(event_manager)@.registry, QuEventType::EAskRetrieveMusicInformation),
            listeners_of(
                old(event_manager)@.registry,
                QuEventType::EAskRetrieveMusicInformation,
            ) as int,
        ) == Seq::<Seq<QuEvent<QuEventType>>>::empty(),
        forall|event: QuEvent<QuEventType>, answer: Seq<QuEvent<QuEventType>>|
            #[trigger] final(event_manager).may_answer_at(
                bucket_for(
                    old(event_manager)@.registry,
                    QuEventType::EAskRetrieveMusicInformation,
                ),
                listeners_of(
                    old(event_manager)@.registry,
                    QuEventType::EAskRetrieveMusicInformation,
                ) as int,
                event,
                answer,
            ) == service_answer(event, answer),
{
    let service = MusicInformationService::new(reader);
    event_manager.register_listener(
        QuEventType::EAskRetrieveMusicInformation,
        Callback { listener: Box::new(service) },
    );
}

} // verus!
