//! The state machine that splits a byte stream into printed characters,
//! control codes and control strings.

use vstd::prelude::*;
use vtparse::{CollectingVTActor, CsiParam, VTAction, VTParser};

verus! {

/// The state machine of the `vtparse` crate.
#[verifier::external_type_specification]
#[verifier::external_body]
pub struct ExVTParser(VTParser);

/// One parameter of a control sequence, as the `vtparse` crate reports it.
#[verifier::external_type_specification]
#[verifier::external_body]
pub struct ExCsiParam(CsiParam);

/// What the state machine reports as it takes in a byte.
#[derive(Debug, PartialEq)]
#[allow(inconsistent_fields)]
pub enum VtEvent {
    /// A character to show.
    Print(char),
    /// A C0 or C1 control code.
    ExecuteC0orC1(u8),
    /// The start of a device control string.
    DcsHook {
        params: Vec<i64>,
        intermediates: Vec<u8>,
        ignored_excess_intermediates: bool,
        byte: u8,
    },
    /// One byte of the data of a device control string.
    DcsPut(u8),
    /// The end of a device control string.
    DcsUnhook,
    /// An escape sequence.
    EscDispatch { intermediates: Vec<u8>, byte: u8 },
    /// A control sequence.
    CsiDispatch { params: Vec<CsiParam>, parameters_truncated: bool, byte: u8 },
    /// An operating system command, split at its semicolons.
    OscDispatch(Vec<Vec<u8>>),
    /// An application program command.
    ApcDispatch(Vec<u8>),
}

/// The mathematical value of a [`VtEvent`].
#[verifier::ext_equal]
#[allow(inconsistent_fields)]
pub ghost enum EventView {
    Print(char),
    ExecuteC0orC1(u8),
    DcsHook {
        params: Seq<i64>,
        intermediates: Seq<u8>,
        ignored_excess_intermediates: bool,
        byte: u8,
    },
    DcsPut(u8),
    DcsUnhook,
    EscDispatch { intermediates: Seq<u8>, byte: u8 },
    CsiDispatch { params: Seq<CsiParam>, parameters_truncated: bool, byte: u8 },
    OscDispatch(Seq<Seq<u8>>),
    ApcDispatch(Seq<u8>),
}

impl View for VtEvent {
    type V = EventView;

    open spec fn view(&self) -> EventView {
        match self {
            VtEvent::Print(c) => EventView::Print(*c),
            VtEvent::ExecuteC0orC1(byte) => EventView::ExecuteC0orC1(*byte),
            VtEvent::DcsHook { params, intermediates, ignored_excess_intermediates, byte } =>
                EventView::DcsHook {
                    params: params@,
                    intermediates: intermediates@,
                    ignored_excess_intermediates: *ignored_excess_intermediates,
                    byte: *byte,
                },
            VtEvent::DcsPut(byte) => EventView::DcsPut(*byte),
            VtEvent::DcsUnhook => EventView::DcsUnhook,
            VtEvent::EscDispatch { intermediates, byte } => EventView::EscDispatch {
                intermediates: intermediates@,
                byte: *byte,
            },
            VtEvent::CsiDispatch { params, parameters_truncated, byte } =>
                EventView::CsiDispatch {
                    params: params@,
                    parameters_truncated: *parameters_truncated,
                    byte: *byte,
                },
            VtEvent::OscDispatch(osc) => EventView::OscDispatch(
                osc@.map_values(|piece: Vec<u8>| piece@),
            ),
            VtEvent::ApcDispatch(data) => EventView::ApcDispatch(data@),
        }
    }
}

/// The values of a sequence of events.
pub open spec fn event_views(events: Seq<VtEvent>) -> Seq<EventView> {
    events.map_values(|event: VtEvent| event@)
}

/// The bytes that a state machine has taken in since it was made.
pub uninterp spec fn bytes_fed(machine: VTParser) -> Seq<u8>;

/// The events that a state machine reports on taking in `byte`, once it has
/// taken in the bytes `fed`.
pub uninterp spec fn dispatched(fed: Seq<u8>, byte: u8) -> Seq<EventView>;

/// Calls `vtparse::VTParser::new`: a machine that has taken in nothing.
#[verifier::external_body]
pub(crate) fn new_machine() -> (machine: VTParser)
    ensures
        bytes_fed(machine) == Seq::<u8>::empty(),
{
    VTParser::new()
}

/// Calls `vtparse::VTParser::parse_byte` with an actor that collects what is
/// reported. The events are a function of the bytes taken in before and of
/// `byte`; the data bytes of a device control string are 7-bit.
#[verifier::external_body]
pub(crate) fn advance(machine: &mut VTParser, byte: u8) -> (events: Vec<VtEvent>)
    ensures
        bytes_fed(*final(machine)) == bytes_fed(*old(machine)).push(byte),
        event_views(events@) == dispatched(bytes_fed(*old(machine)), byte),
        forall|i: int|
            0 <= i < events@.len() ==> (#[trigger] events@[i] matches VtEvent::DcsPut(data)
                ==> data < 0x80),
{
    let mut actor = CollectingVTActor::default();
    machine.parse_byte(byte, &mut actor);
    actor.into_iter().map(|action| match action {
        VTAction::Print(c) => VtEvent::Print(c),
        VTAction::ExecuteC0orC1(byte) => VtEvent::ExecuteC0orC1(byte),
        VTAction::DcsHook { params, intermediates, ignored_excess_intermediates, byte } => VtEvent::DcsHook { params, intermediates, ignored_excess_intermediates, byte },
        VTAction::DcsPut(data) => VtEvent::DcsPut(data),
        VTAction::DcsUnhook => VtEvent::DcsUnhook,
        VTAction::EscDispatch { intermediates, byte, .. } => VtEvent::EscDispatch { intermediates, byte },
        VTAction::CsiDispatch { params, parameters_truncated, byte } => VtEvent::CsiDispatch { params, parameters_truncated, byte },
        VTAction::OscDispatch(osc) => VtEvent::OscDispatch(osc),
        VTAction::ApcDispatch(data) => VtEvent::ApcDispatch(data),
    }).collect()
}

/// The value of an event tells its kind, and has all that it carries.
pub proof fn lemma_event_view(event: VtEvent)
    ensures
        match event {
            VtEvent::Print(c) => event@ == EventView::Print(c),
            VtEvent::ExecuteC0orC1(byte) => event@ == EventView::ExecuteC0orC1(byte),
            VtEvent::DcsHook { params, intermediates, ignored_excess_intermediates, byte } => event@
                == (EventView::DcsHook {
                params: params@,
                intermediates: intermediates@,
                ignored_excess_intermediates,
                byte,
            }),
            VtEvent::DcsPut(data) => event@ == EventView::DcsPut(data),
            VtEvent::DcsUnhook => event@ == EventView::DcsUnhook,
            VtEvent::EscDispatch { intermediates, byte } => event@ == (EventView::EscDispatch {
                intermediates: intermediates@,
                byte,
            }),
            VtEvent::CsiDispatch { params, parameters_truncated, byte } => event@
                == (EventView::CsiDispatch { params: params@, parameters_truncated, byte }),
            VtEvent::OscDispatch(osc) => {
                &&& event@ is OscDispatch
                &&& event@->OscDispatch_0.len() == osc@.len()
                &&& forall|i: int|
                    0 <= i < osc@.len() ==> #[trigger] event@->OscDispatch_0[i] == osc@[i]@
            },
            VtEvent::ApcDispatch(data) => event@ == EventView::ApcDispatch(data@),
        },
{
}

/// The values of a list of events are those of each of them, in order.
pub proof fn lemma_event_views(events: Seq<VtEvent>)
    ensures
        event_views(events).len() == events.len(),
        forall|i: int| 0 <= i < events.len() ==> #[trigger] event_views(events)[i] == events[i]@,
{
}

} // verus!
