//! What the GUI keeps of the events it listens to.

use crate::controller::dispatch::{bucket_for, listeners_of, with_listener};
use crate::controller::event::{EventQueue, QuEvent};
use crate::controller::event_manager::{EventManager, EventManagerView};
use crate::controller::information::{key_map_view, QuField, QuFieldView};
use crate::controller::listener::{Callback, QuListener};
use crate::controller::QuEventType;
use vstd::prelude::*;

verus! {

/// Structure containing all the information needed by the GUI
/// Will be used inside the GUI library to update the state
pub struct GUIManager {
    /// Whether the information of a piece of music was asked for and has
    /// come.
    pub m_music_information_retrieved: bool,
    /// The information of the current piece of music, one line for each
    /// field.
    pub m_current_music_information: Vec<String>,
    /// Every event the gui manager was called with as a listener.
    pub m_received: Ghost<Seq<QuEvent<QuEventType>>>,
    /// What the gui manager published in each call: nothing.
    pub m_published: Ghost<Seq<Seq<QuEvent<QuEventType>>>>,
}

/// The line that shows one field: its name, a colon, a space, its value.
pub open spec fn information_line(field: QuFieldView) -> Seq<char> {
    field.0 + ": "@ + field.2
}

/// The lines that show the fields of a payload: one for each field, in the
/// order of the fields.
pub open spec fn information_lines(key_map: Seq<QuFieldView>) -> Seq<Seq<char>> {
    Seq::new(key_map.len(), |i: int| information_line(key_map[i]))
}

/// The lines of text as sequences of characters.
pub open spec fn lines_view(lines: Seq<String>) -> Seq<Seq<char>> {
    Seq::new(lines.len(), |i: int| lines[i]@)
}

/// Writes the line that shows one field.
pub fn format_information_line(field: &QuField) -> (line: String)
    ensures
        line@ == information_line(crate::controller::information::field_view(*field)),
{
    let mut line = field.0.clone();
    line.append(": ");
    line.append(field.2.as_str());
    line
}

/// Adds to the current music information one line for each field of
/// `key_map`, whatever their number and in their order.
pub fn show_information(gui_manager: &mut GUIManager, key_map: &Vec<QuField>)
    ensures
        lines_view(final(gui_manager).m_current_music_information@) == lines_view(
            old(gui_manager).m_current_music_information@,
        ) + information_lines(key_map_view(key_map@)),
        final(gui_manager).m_music_information_retrieved == old(
            gui_manager,
        ).m_music_information_retrieved,
        final(gui_manager).m_received@ == old(gui_manager).m_received@,
        final(gui_manager).m_published@ == old(gui_manager).m_published@,
{
    let ghost fields = key_map_view(key_map@);
    let ghost lines = lines_view(gui_manager.m_current_music_information@);
    let mut i: usize = 0;
    while i < key_map.len()
        invariant
            i <= key_map@.len(),
            key_map_view(key_map@) == fields,
            gui_manager.m_music_information_retrieved == old(
                gui_manager,
            ).m_music_information_retrieved,
            gui_manager.m_received@ == old(gui_manager).m_received@,
            gui_manager.m_published@ == old(gui_manager).m_published@,
            lines_view(gui_manager.m_current_music_information@) == lines + information_lines(
                fields.subrange(0, i as int),
            ),
        decreases key_map@.len() - i,
    {
        let line = format_information_line(&key_map[i]);
        let ghost shown = lines_view(gui_manager.m_current_music_information@);
        let ghost text = line@;
        gui_manager.m_current_music_information.push(line);
        proof {
            assert(fields[i as int] == crate::controller::information::field_view(key_map@[i as int]));
            assert(lines_view(gui_manager.m_current_music_information@) =~= shown.push(text));
            assert(information_lines(fields.subrange(0, i + 1)) =~= information_lines(
                fields.subrange(0, i as int),
            ).push(information_line(fields[i as int])));
            assert(lines_view(gui_manager.m_current_music_information@) =~= lines + information_lines(
                fields.subrange(0, i + 1),
            ));
        }
        i += 1;
    }
    proof {
        assert(fields.subrange(0, i as int) =~= fields);
    }
}

/// Function that read the information of an event.
/// The payload of the event is asked for its fields, and each of them is
/// added to the current music information as one line, whatever their number
/// and in their order.
///
///# Arguments
/// * gui_manager : The current gui_manager
/// * event : The event coming from an AudioInformation
pub fn read_music_information_from_event(gui_manager: &mut GUIManager, event: &QuEvent<QuEventType>)
    ensures
        lines_view(final(gui_manager).m_current_music_information@) == lines_view(
            old(gui_manager).m_current_music_information@,
        ) + information_lines(event.m_event_arg.fields()),
        final(gui_manager).m_music_information_retrieved == old(
            gui_manager,
        ).m_music_information_retrieved,
        final(gui_manager).m_received@ == old(gui_manager).m_received@,
        final(gui_manager).m_published@ == old(gui_manager).m_published@,
{
    let tuple_informations = event.m_event_arg.convert_to_key_map();
    show_information(gui_manager, &tuple_informations);
}

impl QuListener<QuEventType> for GUIManager {
    open spec fn received(&self) -> Seq<QuEvent<QuEventType>> {
        self.m_received@
    }

    open spec fn published(&self) -> Seq<Seq<QuEvent<QuEventType>>> {
        self.m_published@
    }

    /// The gui manager publishes nothing.
    open spec fn may_answer(&self, event: QuEvent<QuEventType>, answer: Seq<QuEvent<QuEventType>>) -> bool {
        answer.len() == 0
    }

    /// Shows the information that the event carries, and publishes nothing.
    fn on_event(&mut self, event: &QuEvent<QuEventType>, tmp_event_queue: &mut EventQueue<QuEventType>)
        ensures
            final(tmp_event_queue)@ == old(tmp_event_queue)@,
            lines_view(final(self).m_current_music_information@) == lines_view(
                old(self).m_current_music_information@,
            ) + information_lines(event.m_event_arg.fields()),
            final(self).m_music_information_retrieved == old(self).m_music_information_retrieved,
    {
        read_music_information_from_event(self, event);
        proof {
            self.m_received@ = self.m_received@.push(*event);
            self.m_published@ = self.m_published@.push(Seq::empty());
            assert(tmp_event_queue@.skip(old(tmp_event_queue)@.len() as int) =~= Seq::<
                QuEvent<QuEventType>,
            >::empty());
        }
    }
}

/// Function that will registers the listener that the gui needs, for the
/// events of kind `EMusicInformationRetrieved`: the gui manager itself, or
/// whatever stands for it. It comes after the listeners already registered
/// for that kind, which stay where they are.
///
/// # Arguments
/// * gui_manager : the current gui manager
/// * event_manager : the current event_manager
pub fn register_event_listeners(
    gui_manager: Callback<QuEventType>,
    event_manager: &mut EventManager<QuEventType>,
)
    requires
        old(event_manager).wf(),
    ensures
        final(event_manager).wf(),
        final(event_manager)@ == (EventManagerView {
            registry: with_listener(
                old(event_manager)@.registry,
                QuEventType::EMusicInformationRetrieved,
            ),
            need_update: true,
            ..old(event_manager)@
        }),
        final(event_manager).heard_as(old(event_manager)),
        final(event_manager).heard_by(
            bucket_for(old(event_manager)@.registry, QuEventType::EMusicInformationRetrieved),
            listeners_of(old(event_manager)@.registry, QuEventType::EMusicInformationRetrieved) as int,
        ) == gui_manager.listener.received(),
        final(event_manager).answers_of(
            bucket_for(old(event_manager)@.registry, QuEventType::EMusicInformationRetrieved),
            listeners_of(old(event_manager)@.registry, QuEventType::EMusicInformationRetrieved) as int,
        ) == gui_manager.listener.published(),
        forall|event: QuEvent<QuEventType>, answer: Seq<QuEvent<QuEventType>>|
            #[trigger] final(event_manager).may_answer_at(
                bucket_for(old(event_manager)@.registry, QuEventType::EMusicInformationRetrieved),
                listeners_of(
                    old(event_manager)@.registry,
                    QuEventType::EMusicInformationRetrieved,
                ) as int,
                event,
                answer,
            ) == gui_manager.listener.may_answer(event, answer),
{
    event_manager.register_listener(QuEventType::EMusicInformationRetrieved, gui_manager);
}

/// Create the gui manager with all the parameters set to default values
/// MUST be called at the beginning of the application
///
/// # Return
/// Return the gui manager
pub fn create_gui_manager() -> (gui_manager: GUIManager)
    ensures
        gui_manager.m_music_information_retrieved == false,
        gui_manager.m_current_music_information@ == Seq::<String>::empty(),
        gui_manager.m_received@ == Seq::<QuEvent<QuEventType>>::empty(),
        gui_manager.m_published@ == Seq::<Seq<QuEvent<QuEventType>>>::empty(),
{
    GUIManager {
        m_current_music_information: Vec::new(),
        m_music_information_retrieved: false,
        m_received: Ghost(Seq::empty()),
        m_published: Ghost(Seq::empty()),
    }
}

} // verus!
