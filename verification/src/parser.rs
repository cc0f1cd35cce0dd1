//! The parser.

use crate::action::Action;
#[allow(unused_imports)]
use crate::action::{action_views, ActionView, DeviceControlView};
use crate::decode::Decoder;
use crate::machine::{advance, new_machine, VtEvent};
#[allow(unused_imports)]
use crate::machine::{bytes_fed, dispatched, event_views, EventView};
use crate::state::ParseState;
#[allow(unused_imports)]
use crate::state::{perform, ActionOf, StateOf, StateView};
use vstd::prelude::*;
use vtparse::VTParser;

verus! {

/// Holds the state machine that is used to decode a sequence of bytes. The
/// bytes can be streamed into it.
pub struct Parser<D: Decoder> {
    state_machine: VTParser,
    state: ParseState<D>,
}

/// The mathematical value of a [`Parser`], where `T` is that of a tmux parser:
/// the bytes that the state machine has taken in, and the device control
/// strings that are being collected.
#[verifier::ext_equal]
pub ghost struct ParserView<T> {
    pub fed: Seq<u8>,
    pub state: StateView<T>,
}

/// The value of a parser with the decoder `D`.
pub type ParserOf<D> = ParserView<<<D as Decoder>::Tmux as View>::V>;

impl<D: Decoder> View for Parser<D> {
    type V = ParserOf<D>;

    closed spec fn view(&self) -> ParserOf<D> {
        ParserView { fed: bytes_fed(self.state_machine), state: self.state@ }
    }
}

impl<T> ParserView<T> {
    /// A parser that has taken in nothing.
    pub open spec fn initial() -> ParserView<T> {
        ParserView { fed: Seq::empty(), state: StateView::initial() }
    }
}

/// What events do, one after the other.
pub open spec fn run<D: Decoder>(state: StateOf<D>, events: Seq<EventView>) -> (
    StateOf<D>,
    Seq<ActionOf<D>>,
)
    decreases events.len(),
{
    if events.len() == 0 {
        (state, Seq::empty())
    } else {
        let before = run::<D>(state, events.drop_last());
        let last = perform::<D>(before.0, events.last());
        (last.0, before.1 + last.1)
    }
}

/// What one byte does outside the tmux control mode.
pub open spec fn step<D: Decoder>(parser: ParserOf<D>, byte: u8) -> (
    ParserOf<D>,
    Seq<ActionOf<D>>,
) {
    let done = run::<D>(parser.state, dispatched(parser.fed, byte));
    (ParserView { fed: parser.fed.push(byte), state: done.0 }, done.1)
}

/// What bytes do, one after the other, outside the tmux control mode.
pub open spec fn feed<D: Decoder>(parser: ParserOf<D>, bytes: Seq<u8>) -> (
    ParserOf<D>,
    Seq<ActionOf<D>>,
)
    decreases bytes.len(),
{
    if bytes.len() == 0 {
        (parser, Seq::empty())
    } else {
        let before = feed::<D>(parser, bytes.drop_last());
        let last = step::<D>(before.0, bytes.last());
        (last.0, before.1 + last.1)
    }
}

/// What a chunk of bytes does. In the tmux control mode all of it is for the
/// tmux parser; where that finds it is not part of the mode, the mode ends.
pub open spec fn take_in<D: Decoder>(parser: ParserOf<D>, bytes: Seq<u8>) -> (
    ParserOf<D>,
    Seq<ActionOf<D>>,
) {
    match parser.state.tmux {
        Some(tmux) => match D::tmux_bytes_reply(tmux, bytes) {
            Ok(events) => (
                ParserView {
                    state: StateView {
                        tmux: Some(D::tmux_after_bytes(tmux, bytes)),
                        ..parser.state
                    },
                    ..parser
                },
                seq![ActionView::DeviceControl(DeviceControlView::TmuxEvents(events))],
            ),
            Err(text) => feed::<D>(
                ParserView { state: StateView { tmux: None, ..parser.state }, ..parser },
                text,
            ),
        },
        None => feed::<D>(parser, bytes),
    }
}

/// Whether `length` is the least number of bytes from which an action is
/// decoded.
pub open spec fn is_first_length<D: Decoder>(
    parser: ParserOf<D>,
    bytes: Seq<u8>,
    length: int,
) -> bool {
    &&& 0 < length <= bytes.len()
    &&& feed::<D>(parser, bytes.take(length)).1.len() > 0
    &&& feed::<D>(parser, bytes.take(length - 1)).1.len() == 0
}

proof fn lemma_perform_seven_bit<D: Decoder>(state: StateOf<D>, event: EventView)
    requires
        state.is_seven_bit(),
        event matches EventView::DcsPut(data) ==> data < 0x80,
    ensures
        perform::<D>(state, event).0.is_seven_bit(),
{
}

impl<D: Decoder> Default for Parser<D> {
    fn default() -> (parser: Self)
        ensures
            parser@ == ParserOf::<D>::initial(),
    {
        Self::new()
    }
}

impl<D: Decoder> Parser<D> {
    /// A parser that has taken in nothing.
    pub fn new() -> (parser: Self)
        ensures
            parser@ == ParserOf::<D>::initial(),
    {
        Parser { state_machine: new_machine(), state: ParseState::new() }
    }

    fn parse_byte(&mut self, byte: u8, actions: &mut Vec<Action<D::Payload>>)
        ensures
            final(self)@ == step::<D>(old(self)@, byte).0,
            action_views(final(actions)@) == action_views(old(actions)@) + step::<D>(
                old(self)@,
                byte,
            ).1,
            old(self)@.state.is_seven_bit() ==> final(self)@.state.is_seven_bit(),
    {
        let ghost start = self@;
        let ghost before = action_views(actions@);
        let events = advance(&mut self.state_machine, byte);
        let ghost views = event_views(events@);
        assert(before + Seq::<ActionOf<D>>::empty() == before);
        for event in iter: events
            invariant
                bytes_fed(self.state_machine) == start.fed.push(byte),
                views == event_views(iter.seq()),
                forall|i: int|
                    0 <= i < iter.seq().len() ==> (#[trigger] iter.seq()[i] matches VtEvent::DcsPut(
                        data,
                    ) ==> data < 0x80),
                self.state@ == run::<D>(start.state, views.take(iter.index())).0,
                action_views(actions@) == before + run::<D>(
                    start.state,
                    views.take(iter.index()),
                ).1,
                start.state.is_seven_bit() ==> self.state@.is_seven_bit(),
        {
            proof {
                let next = views.take(iter.index() + 1);
                assert(next.drop_last() == views.take(iter.index()));
                assert(next.last() == event@);
                if start.state.is_seven_bit() {
                    lemma_perform_seven_bit::<D>(self.state@, event@);
                }
            }
            self.state.perform(event, actions);
        }
        assert(views.take(views.len() as int) == views);
    }

    fn parse_bytes(&mut self, bytes: &[u8], actions: &mut Vec<Action<D::Payload>>)
        ensures
            final(self)@ == feed::<D>(old(self)@, bytes@).0,
            action_views(final(actions)@) == action_views(old(actions)@) + feed::<D>(
                old(self)@,
                bytes@,
            ).1,
            old(self)@.state.is_seven_bit() ==> final(self)@.state.is_seven_bit(),
    {
        let ghost start = self@;
        let ghost before = action_views(actions@);
        assert(before + Seq::<ActionOf<D>>::empty() == before);
        let mut idx: usize = 0;
        while idx < bytes.len()
            invariant
                idx <= bytes@.len(),
                self@ == feed::<D>(start, bytes@.take(idx as int)).0,
                action_views(actions@) == before + feed::<D>(start, bytes@.take(idx as int)).1,
                start.state.is_seven_bit() ==> self@.state.is_seven_bit(),
            decreases bytes@.len() - idx,
        {
            proof {
                let next = bytes@.take(idx + 1);
                assert(next.drop_last() == bytes@.take(idx as int));
                assert(next.last() == bytes@[idx as int]);
            }
            self.parse_byte(bytes[idx], actions);
            idx = idx + 1;
        }
        assert(bytes@.take(bytes@.len() as int) == bytes@);
    }

    /// Takes in a chunk of bytes, and adds the actions that are decoded from
    /// it to `actions`.
    pub fn parse(&mut self, bytes: &[u8], actions: &mut Vec<Action<D::Payload>>)
        ensures
            final(self)@ == take_in::<D>(old(self)@, bytes@).0,
            action_views(final(actions)@) == action_views(old(actions)@) + take_in::<D>(
                old(self)@,
                bytes@,
            ).1,
            old(self)@.state.is_seven_bit() ==> final(self)@.state.is_seven_bit(),
    {
        if self.state.is_tmux_mode() {
            if let Some(unparsed) = self.state.tmux_bytes(bytes, actions) {
                self.parse_bytes(unparsed.as_slice(), actions);
            }
        } else {
            self.parse_bytes(bytes, actions);
        }
    }

    /// Takes in a chunk of bytes, and gives the actions that are decoded from
    /// it.
    pub fn parse_as_vec(&mut self, bytes: &[u8]) -> (result: Vec<Action<D::Payload>>)
        ensures
            final(self)@ == take_in::<D>(old(self)@, bytes@).0,
            action_views(result@) == take_in::<D>(old(self)@, bytes@).1,
            old(self)@.state.is_seven_bit() ==> final(self)@.state.is_seven_bit(),
    {
        let mut result: Vec<Action<D::Payload>> = Vec::new();
        assert(action_views(result@) + take_in::<D>(self@, bytes@).1 == take_in::<D>(
            self@,
            bytes@,
        ).1);
        self.parse(bytes, &mut result);
        result
    }

    /// A specialized version of the parser that halts after recognizing the
    /// first action from the stream of bytes. Gives the action that was
    /// recognized and the length of the byte stream that was fed in to the
    /// parser to yield it.
    pub fn parse_first(&mut self, bytes: &[u8]) -> (found: Option<(Action<D::Payload>, usize)>)
        ensures
            match found {
                Some((action, length)) => {
                    &&& is_first_length::<D>(old(self)@, bytes@, length as int)
                    &&& action@ == feed::<D>(old(self)@, bytes@.take(length as int)).1[0]
                    &&& final(self)@ == feed::<D>(old(self)@, bytes@.take(length as int)).0
                },
                None => {
                    &&& feed::<D>(old(self)@, bytes@).1.len() == 0
                    &&& final(self)@ == feed::<D>(old(self)@, bytes@).0
                },
            },
            old(self)@.state.is_seven_bit() ==> final(self)@.state.is_seven_bit(),
    {
        match self.parse_first_as_vec(bytes) {
            Some((mut actions, length)) => {
                assert(action_views(actions@)[0] == actions@[0]@);
                Some((actions.remove(0), length))
            },
            None => None,
        }
    }

    /// Similar to `parse_first` but collects all actions from the first
    /// sequence.
    pub fn parse_first_as_vec(&mut self, bytes: &[u8]) -> (found: Option<
        (Vec<Action<D::Payload>>, usize),
    >)
        ensures
            match found {
                Some((actions, length)) => {
                    &&& is_first_length::<D>(old(self)@, bytes@, length as int)
                    &&& action_views(actions@) == feed::<D>(
                        old(self)@,
                        bytes@.take(length as int),
                    ).1
                    &&& final(self)@ == feed::<D>(old(self)@, bytes@.take(length as int)).0
                },
                None => {
                    &&& feed::<D>(old(self)@, bytes@).1.len() == 0
                    &&& final(self)@ == feed::<D>(old(self)@, bytes@).0
                },
            },
            old(self)@.state.is_seven_bit() ==> final(self)@.state.is_seven_bit(),
    {
        let ghost start = self@;
        let mut actions: Vec<Action<D::Payload>> = Vec::new();
        let mut idx: usize = 0;
        assert(action_views(actions@) == Seq::<ActionOf<D>>::empty());
        while idx < bytes.len()
            invariant
                start == old(self)@,
                idx <= bytes@.len(),
                self@ == feed::<D>(start, bytes@.take(idx as int)).0,
                action_views(actions@) == feed::<D>(start, bytes@.take(idx as int)).1,
                actions@.len() == 0,
                start.state.is_seven_bit() ==> self@.state.is_seven_bit(),
            decreases bytes@.len() - idx,
        {
            proof {
                let next = bytes@.take(idx + 1);
                assert(next.drop_last() == bytes@.take(idx as int));
                assert(next.last() == bytes@[idx as int]);
            }
            self.parse_byte(bytes[idx], &mut actions);
            if !actions.is_empty() {
                return Some((actions, idx + 1));
            }
            idx = idx + 1;
        }
        assert(bytes@.take(bytes@.len() as int) == bytes@);
        None
    }
}

} // verus!
