//! What holds of the parser as a whole.

#![allow(unused_imports)]

use crate::action::{ActionView, DeviceControlView, EnterView, ShortDeviceControlView};
use crate::decode::Decoder;
use crate::machine::{dispatched, EventView};
use crate::parser::{feed, is_first_length, run, step, take_in, ParserOf, ParserView};
use crate::sixel::{blank_image, SixelBuilderView};
use crate::state::{
    hook, is_status_query, perform, unhook, ActionOf, StateOf, StateView, LOWER_P, LOWER_Q,
    PLUS, TMUX_MODE,
};
use crate::tcap::{capability_name, lemma_push_all, names_of, TcapView};
use vstd::prelude::*;
use vtparse::CsiParam;

verus! {

/// Outside the tmux control mode it does not matter how a stream is cut into
/// chunks: two chunks, one after the other, do what they do as one.
pub proof fn lemma_feed_concat<D: Decoder>(parser: ParserOf<D>, first: Seq<u8>, second: Seq<u8>)
    ensures
        feed::<D>(parser, first + second).0 == feed::<D>(
            feed::<D>(parser, first).0,
            second,
        ).0,
        feed::<D>(parser, first + second).1 == feed::<D>(parser, first).1 + feed::<D>(
            feed::<D>(parser, first).0,
            second,
        ).1,
    decreases second.len(),
{
    let middle = feed::<D>(parser, first);
    if second.len() == 0 {
        assert(first + second == first);
        assert(middle.1 + feed::<D>(middle.0, second).1 == middle.1);
    } else {
        lemma_feed_concat::<D>(parser, first, second.drop_last());
        assert((first + second).drop_last() == first + second.drop_last());
        assert((first + second).last() == second.last());
        let rest = feed::<D>(middle.0, second.drop_last());
        let last = step::<D>(rest.0, second.last());
        assert(middle.1 + (rest.1 + last.1) == (middle.1 + rest.1) + last.1);
    }
}

/// Chunks may be cut anywhere, as far as `parse` is concerned, as long as the
/// tmux control mode is off before the first chunk and between the two.
pub proof fn lemma_take_in_concat<D: Decoder>(
    parser: ParserOf<D>,
    first: Seq<u8>,
    second: Seq<u8>,
)
    requires
        parser.state.tmux is None,
        take_in::<D>(parser, first).0.state.tmux is None,
    ensures
        take_in::<D>(parser, first + second).0 == take_in::<D>(
            take_in::<D>(parser, first).0,
            second,
        ).0,
        take_in::<D>(parser, first + second).1 == take_in::<D>(parser, first).1 + take_in::<D>(
            take_in::<D>(parser, first).0,
            second,
        ).1,
{
    lemma_feed_concat::<D>(parser, first, second);
}

/// The state machine takes in every byte, in order.
pub proof fn lemma_feed_takes_all<D: Decoder>(parser: ParserOf<D>, bytes: Seq<u8>)
    ensures
        feed::<D>(parser, bytes).0.fed == parser.fed + bytes,
    decreases bytes.len(),
{
    if bytes.len() == 0 {
        assert(parser.fed + bytes == parser.fed);
    } else {
        lemma_feed_takes_all::<D>(parser, bytes.drop_last());
        assert((parser.fed + bytes.drop_last()).push(bytes.last()) == parser.fed + bytes);
    }
}

/// What is decoded from the start of a chunk is decoded from the whole of it,
/// before anything else.
pub proof fn lemma_feed_prefix<D: Decoder>(parser: ParserOf<D>, bytes: Seq<u8>, length: int)
    requires
        0 <= length <= bytes.len(),
    ensures
        feed::<D>(parser, bytes.take(length)).1.is_prefix_of(feed::<D>(parser, bytes).1),
{
    assert(bytes.take(length) + bytes.skip(length) == bytes);
    lemma_feed_concat::<D>(parser, bytes.take(length), bytes.skip(length));
}

/// `parse_first` and `parse_first_as_vec` halt as early as can be: from fewer
/// bytes nothing is decoded.
pub proof fn lemma_first_is_least<D: Decoder>(
    parser: ParserOf<D>,
    bytes: Seq<u8>,
    length: int,
    fewer: int,
)
    requires
        is_first_length::<D>(parser, bytes, length),
        0 <= fewer < length,
    ensures
        feed::<D>(parser, bytes.take(fewer)).1.len() == 0,
{
    lemma_feed_prefix::<D>(parser, bytes.take(length - 1), fewer);
    assert(bytes.take(length - 1).take(fewer) == bytes.take(fewer));
}

/// There is one place at most at which `parse_first` and `parse_first_as_vec`
/// can halt, so both halt at the same.
pub proof fn lemma_first_is_unique<D: Decoder>(
    parser: ParserOf<D>,
    bytes: Seq<u8>,
    one: int,
    other: int,
)
    requires
        is_first_length::<D>(parser, bytes, one),
        is_first_length::<D>(parser, bytes, other),
    ensures
        one == other,
{
    if one < other {
        lemma_first_is_least::<D>(parser, bytes, other, one);
    } else if other < one {
        lemma_first_is_least::<D>(parser, bytes, one, other);
    }
}

/// Where a chunk has any action, there is a place at which `parse_first`
/// halts, and the other way round; and outside the tmux control mode the
/// action found there is the first of those that `parse_as_vec` gives.
pub proof fn lemma_first_exists<D: Decoder>(parser: ParserOf<D>, bytes: Seq<u8>)
    ensures
        feed::<D>(parser, bytes).1.len() > 0 <==> exists|length: int|
            is_first_length::<D>(parser, bytes, length),
        forall|length: int| #[trigger]
            is_first_length::<D>(parser, bytes, length) ==> {
                let found = feed::<D>(parser, bytes.take(length)).1;
                &&& found[0] == feed::<D>(parser, bytes).1[0]
                &&& parser.state.tmux is None ==> found[0] == take_in::<D>(parser, bytes).1[0]
            },
    decreases bytes.len(),
{
    assert forall|length: int| #[trigger]
        is_first_length::<D>(parser, bytes, length) implies feed::<D>(parser, bytes).1.len() > 0
        && feed::<D>(parser, bytes.take(length)).1[0] == feed::<D>(parser, bytes).1[0] by {
        lemma_feed_prefix::<D>(parser, bytes, length);
    }
    if feed::<D>(parser, bytes).1.len() > 0 {
        let shorter = bytes.drop_last();
        lemma_first_exists::<D>(parser, shorter);
        if feed::<D>(parser, shorter).1.len() > 0 {
            let length = choose|length: int| is_first_length::<D>(parser, shorter, length);
            assert(shorter.take(length) == bytes.take(length));
            assert(shorter.take(length - 1) == bytes.take(length - 1));
            assert(is_first_length::<D>(parser, bytes, length));
        } else {
            assert(bytes.take(bytes.len() as int) == bytes);
            assert(bytes.take(bytes.len() - 1) == shorter);
            assert(is_first_length::<D>(parser, bytes, bytes.len() as int));
        }
    }
}

/// Reading on behind the place at which `parse_first_as_vec` halted loses
/// nothing: what it found and what comes after are together what the whole
/// chunk amounts to.
pub proof fn lemma_first_then_rest<D: Decoder>(
    parser: ParserOf<D>,
    bytes: Seq<u8>,
    length: int,
)
    requires
        is_first_length::<D>(parser, bytes, length),
    ensures
        ({
            let found = feed::<D>(parser, bytes.take(length));
            let rest = feed::<D>(found.0, bytes.skip(length));
            &&& feed::<D>(parser, bytes).0 == rest.0
            &&& feed::<D>(parser, bytes).1 == found.1 + rest.1
        }),
{
    assert(bytes.take(length) + bytes.skip(length) == bytes);
    lemma_feed_concat::<D>(parser, bytes.take(length), bytes.skip(length));
}

/// Events may be taken in parts: two runs, one after the other, do what their
/// events do as one.
pub proof fn lemma_run_concat<D: Decoder>(
    state: StateOf<D>,
    first: Seq<EventView>,
    second: Seq<EventView>,
)
    ensures
        run::<D>(state, first + second).0 == run::<D>(run::<D>(state, first).0, second).0,
        run::<D>(state, first + second).1 == run::<D>(state, first).1 + run::<D>(
            run::<D>(state, first).0,
            second,
        ).1,
    decreases second.len(),
{
    let middle = run::<D>(state, first);
    if second.len() == 0 {
        assert(first + second == first);
        assert(middle.1 + run::<D>(middle.0, second).1 == middle.1);
    } else {
        lemma_run_concat::<D>(state, first, second.drop_last());
        assert((first + second).drop_last() == first + second.drop_last());
        assert((first + second).last() == second.last());
        let rest = run::<D>(middle.0, second.drop_last());
        let last = perform::<D>(rest.0, second.last());
        assert(middle.1 + (rest.1 + last.1) == (middle.1 + rest.1) + last.1);
    }
}

/// The events of the data of a device control string.
pub open spec fn data_events(data: Seq<u8>) -> Seq<EventView> {
    data.map_values(|byte: u8| EventView::DcsPut(byte))
}

/// The events of a device control string: its start, its data and its end.
pub open spec fn string_events(
    byte: u8,
    params: Seq<i64>,
    intermediates: Seq<u8>,
    ignored_excess_intermediates: bool,
    data: Seq<u8>,
) -> Seq<EventView> {
    seq![EventView::DcsHook { params, intermediates, ignored_excess_intermediates, byte }]
        + data_events(data) + seq![EventView::DcsUnhook]
}

/// A whole device control string does what its start, its data and its end
/// do.
proof fn lemma_string_parts<D: Decoder>(
    state: StateOf<D>,
    byte: u8,
    params: Seq<i64>,
    intermediates: Seq<u8>,
    ignored: bool,
    data: Seq<u8>,
)
    ensures
        ({
            let start = hook::<D>(state, byte, params, intermediates, ignored);
            let body = run::<D>(start.0, data_events(data));
            let end = unhook::<D>(body.0);
            let whole = run::<D>(
                state,
                string_events(byte, params, intermediates, ignored, data),
            );
            &&& whole.0 == end.0
            &&& whole.1 == start.1 + body.1 + end.1
        }),
{
    let hooked = seq![
        EventView::DcsHook { params, intermediates, ignored_excess_intermediates: ignored, byte },
    ];
    let unhooked = seq![EventView::DcsUnhook];
    lemma_run_one::<D>(state, hooked[0]);
    lemma_run_concat::<D>(state, hooked, data_events(data));
    let body = run::<D>(run::<D>(state, hooked).0, data_events(data));
    lemma_run_one::<D>(body.0, EventView::DcsUnhook);
    lemma_run_concat::<D>(state, hooked + data_events(data), unhooked);
}

proof fn lemma_run_one<D: Decoder>(state: StateOf<D>, event: EventView)
    ensures
        run::<D>(state, seq![event]).0 == perform::<D>(state, event).0,
        run::<D>(state, seq![event]).1 == perform::<D>(state, event).1,
{
    let events = seq![event];
    assert(events.drop_last() == Seq::<EventView>::empty());
    let done = perform::<D>(state, event);
    reveal_with_fuel(run, 2);
    assert(Seq::<ActionOf<D>>::empty() + done.1 == done.1);
}

/// A sixel image is reported as a whole, at the end of its string: what its
/// parameters and its data stand for, and nothing else.
pub proof fn lemma_sixel_string<D: Decoder>(state: StateOf<D>, params: Seq<i64>, data: Seq<u8>)
    ensures
        run::<D>(state, string_events(LOWER_Q, params, Seq::empty(), false, data)) == (
            state.cleared(),
            seq![ActionOf::<D>::Sixel(blank_image(params).read(data, 0))],
        ),
{
    let start = hook::<D>(state, LOWER_Q, params, Seq::empty(), false);
    lemma_sixel_data::<D>(start.0, data);
    lemma_string_parts::<D>(state, LOWER_Q, params, Seq::empty(), false, data);
    assert(Seq::<u8>::empty() + data == data);
    let whole = run::<D>(state, string_events(LOWER_Q, params, Seq::empty(), false, data));
    assert(whole.1 == seq![ActionOf::<D>::Sixel(blank_image(params).read(data, 0))]);
}

proof fn lemma_sixel_data<D: Decoder>(state: StateOf<D>, data: Seq<u8>)
    requires
        state.dcs is None,
        state.sixel is Some,
    ensures
        ({
            let sixel = state.sixel->0;
            run::<D>(state, data_events(data)) == (
                StateView {
                    sixel: Some(SixelBuilderView { buf: sixel.buf + data, ..sixel }),
                    ..state
                },
                Seq::<ActionOf<D>>::empty(),
            )
        }),
    decreases data.len(),
{
    let sixel = state.sixel->0;
    if data.len() == 0 {
        assert(sixel.buf + data == sixel.buf);
    } else {
        lemma_sixel_data::<D>(state, data.drop_last());
        assert(data_events(data).drop_last() == data_events(data.drop_last()));
        assert((sixel.buf + data.drop_last()).push(data.last()) == sixel.buf + data);
        assert(run::<D>(state, data_events(data)).1 == Seq::<ActionOf<D>>::empty());
    }
}

/// A status query is reported as a whole, with all of its data, and nothing
/// else.
pub proof fn lemma_status_query_string<D: Decoder>(
    state: StateOf<D>,
    params: Seq<i64>,
    intermediates: Seq<u8>,
    byte: u8,
    data: Seq<u8>,
)
    requires
        is_status_query(intermediates, byte),
    ensures
        run::<D>(state, string_events(byte, params, intermediates, false, data)) == (
            state.cleared(),
            seq![
                ActionOf::<D>::DeviceControl(
                    DeviceControlView::ShortDeviceControl(
                        ShortDeviceControlView { params, intermediates, byte, data },
                    ),
                ),
            ],
        ),
{
    let start = hook::<D>(state, byte, params, intermediates, false);
    assert(intermediates[0] != PLUS);
    lemma_short_data::<D>(start.0, data);
    lemma_string_parts::<D>(state, byte, params, intermediates, false, data);
    assert(Seq::<u8>::empty() + data == data);
    let whole = run::<D>(state, string_events(byte, params, intermediates, false, data));
    assert(whole.1 == seq![
        ActionOf::<D>::DeviceControl(
            DeviceControlView::ShortDeviceControl(
                ShortDeviceControlView { params, intermediates, byte, data },
            ),
        ),
    ]);
}

proof fn lemma_short_data<D: Decoder>(state: StateOf<D>, data: Seq<u8>)
    requires
        state.dcs is Some,
    ensures
        ({
            let dcs = state.dcs->0;
            run::<D>(state, data_events(data)) == (
                StateView {
                    dcs: Some(ShortDeviceControlView { data: dcs.data + data, ..dcs }),
                    ..state
                },
                Seq::<ActionOf<D>>::empty(),
            )
        }),
    decreases data.len(),
{
    let dcs = state.dcs->0;
    if data.len() == 0 {
        assert(dcs.data + data == dcs.data);
    } else {
        lemma_short_data::<D>(state, data.drop_last());
        assert(data_events(data).drop_last() == data_events(data.drop_last()));
        assert((dcs.data + data.drop_last()).push(data.last()) == dcs.data + data);
        assert(run::<D>(state, data_events(data)).1 == Seq::<ActionOf<D>>::empty());
    }
}

/// A capability query is reported as a whole: one name for each of its
/// pieces, in order, and nothing else.
pub proof fn lemma_capability_query_string<D: Decoder>(
    state: StateOf<D>,
    params: Seq<i64>,
    ignored: bool,
    data: Seq<u8>,
)
    ensures
        run::<D>(state, string_events(LOWER_Q, params, seq![PLUS], ignored, data)) == (
            state.cleared(),
            seq![ActionOf::<D>::XtGetTcap(names_of(data))],
        ),
{
    let start = hook::<D>(state, LOWER_Q, params, seq![PLUS], ignored);
    lemma_capability_data::<D>(start.0, data);
    lemma_push_all(data);
    lemma_string_parts::<D>(state, LOWER_Q, params, seq![PLUS], ignored, data);
    let whole = run::<D>(state, string_events(LOWER_Q, params, seq![PLUS], ignored, data));
    assert(whole.1 == seq![ActionOf::<D>::XtGetTcap(names_of(data))]);
}

proof fn lemma_capability_data<D: Decoder>(state: StateOf<D>, data: Seq<u8>)
    requires
        state.dcs is None,
        state.sixel is None,
        state.get_tcap is Some,
    ensures
        run::<D>(state, data_events(data)) == (
            StateView { get_tcap: Some((state.get_tcap->0).push_all(data)), ..state },
            Seq::<ActionOf<D>>::empty(),
        ),
    decreases data.len(),
{
    if data.len() > 0 {
        lemma_capability_data::<D>(state, data.drop_last());
        assert(data_events(data).drop_last() == data_events(data.drop_last()));
        assert(run::<D>(state, data_events(data)).1 == Seq::<ActionOf<D>>::empty());
    }
}

/// Whether a device control string is one that is collected: a sixel image, a
/// capability query or a status query.
pub open spec fn is_collected(byte: u8, intermediates: Seq<u8>, ignored: bool) -> bool {
    ||| byte == LOWER_Q && intermediates.len() == 0 && !ignored
    ||| byte == LOWER_Q && intermediates == seq![PLUS]
    ||| is_status_query(intermediates, byte) && !ignored
}

/// Any other device control string is reported byte by byte, between its
/// start and its end, unless the tmux control mode is on or the string enters
/// it.
pub proof fn lemma_other_string<D: Decoder>(
    state: StateOf<D>,
    byte: u8,
    params: Seq<i64>,
    intermediates: Seq<u8>,
    ignored: bool,
    data: Seq<u8>,
)
    requires
        !is_collected(byte, intermediates, ignored),
        !(byte == LOWER_P && params == seq![TMUX_MODE]),
        state.tmux is None,
    ensures
        run::<D>(state, string_events(byte, params, intermediates, ignored, data)) == (
            state.cleared(),
            seq![
                ActionOf::<D>::DeviceControl(
                    DeviceControlView::Enter(
                        EnterView {
                            byte,
                            params,
                            intermediates,
                            ignored_extra_intermediates: ignored,
                        },
                    ),
                ),
            ] + data.map_values(
                |data: u8| ActionOf::<D>::DeviceControl(DeviceControlView::Data(data)),
            ) + seq![ActionOf::<D>::DeviceControl(DeviceControlView::Exit)],
        ),
{
    let start = hook::<D>(state, byte, params, intermediates, ignored);
    lemma_plain_data::<D>(start.0, data);
    lemma_string_parts::<D>(state, byte, params, intermediates, ignored, data);
}

proof fn lemma_plain_data<D: Decoder>(state: StateOf<D>, data: Seq<u8>)
    requires
        state == StateOf::<D>::initial(),
    ensures
        run::<D>(state, data_events(data)) == (
            state,
            data.map_values(
                |data: u8|
                    ActionOf::<D>::DeviceControl(
                        DeviceControlView::Data(data),
                    ),
            ),
        ),
    decreases data.len(),
{
    let reported = data.map_values(
        |data: u8|
            ActionOf::<D>::DeviceControl(DeviceControlView::Data(data)),
    );
    if data.len() == 0 {
        assert(reported == Seq::<ActionOf<D>>::empty());
    } else {
        lemma_plain_data::<D>(state, data.drop_last());
        assert(data_events(data).drop_last() == data_events(data.drop_last()));
        assert(run::<D>(state, data_events(data)).1 == reported);
    }
}

/// Whether at most one device control string is being collected.
pub open spec fn is_exclusive<D: Decoder>(state: StateOf<D>) -> bool {
    &&& state.sixel is Some ==> state.dcs is None && state.get_tcap is None
    &&& state.dcs is Some ==> state.get_tcap is None
}

/// A new parser collects nothing, and no event makes it collect two device
/// control strings at once.
pub proof fn lemma_perform_exclusive<D: Decoder>(state: StateOf<D>, event: EventView)
    ensures
        is_exclusive::<D>(StateOf::<D>::initial()),
        is_exclusive::<D>(state) ==> is_exclusive::<D>(perform::<D>(state, event).0),
{
}

/// No run of events makes the parser collect two device control strings at
/// once.
pub proof fn lemma_run_exclusive<D: Decoder>(state: StateOf<D>, events: Seq<EventView>)
    requires
        is_exclusive::<D>(state),
    ensures
        is_exclusive::<D>(run::<D>(state, events).0),
    decreases events.len(),
{
    if events.len() > 0 {
        lemma_run_exclusive::<D>(state, events.drop_last());
    }
}

/// Whatever bytes come, in whatever chunks, at most one device control string
/// is being collected.
pub proof fn lemma_take_in_exclusive<D: Decoder>(parser: ParserOf<D>, bytes: Seq<u8>)
    requires
        is_exclusive::<D>(parser.state),
    ensures
        is_exclusive::<D>(feed::<D>(parser, bytes).0.state),
        is_exclusive::<D>(take_in::<D>(parser, bytes).0.state),
{
    lemma_feed_exclusive::<D>(parser, bytes);
    if let Some(tmux) = parser.state.tmux {
        if let Err(text) = D::tmux_bytes_reply(tmux, bytes) {
            let left = ParserView { state: StateView { tmux: None, ..parser.state }, ..parser };
            lemma_feed_exclusive::<D>(left, text);
        }
    }
}

proof fn lemma_feed_exclusive<D: Decoder>(parser: ParserOf<D>, bytes: Seq<u8>)
    requires
        is_exclusive::<D>(parser.state),
    ensures
        is_exclusive::<D>(feed::<D>(parser, bytes).0.state),
    decreases bytes.len(),
{
    if bytes.len() > 0 {
        lemma_feed_exclusive::<D>(parser, bytes.drop_last());
        let before = feed::<D>(parser, bytes.drop_last()).0;
        lemma_run_exclusive::<D>(before.state, dispatched(before.fed, bytes.last()));
    }
}

/// What is no part of a device control string does not touch what is being
/// collected.
pub proof fn lemma_state_kept<D: Decoder>(state: StateOf<D>, event: EventView)
    requires
        !(event is DcsHook),
        !(event is DcsPut),
        !(event is DcsUnhook),
    ensures
        perform::<D>(state, event).0 == state,
{
}

/// The start of a device control string drops what was collected before.
pub proof fn lemma_hook_forgets<D: Decoder>(
    state: StateOf<D>,
    other: StateOf<D>,
    byte: u8,
    params: Seq<i64>,
    intermediates: Seq<u8>,
    ignored: bool,
)
    requires
        state.tmux == other.tmux,
    ensures
        hook::<D>(state, byte, params, intermediates, ignored) == hook::<D>(
            other,
            byte,
            params,
            intermediates,
            ignored,
        ),
{
    assert(state.cleared() == other.cleared());
}

/// The tmux control mode is entered only by its own control string, and left
/// only where the tmux parser does not understand its input.
pub proof fn lemma_tmux_mode<D: Decoder>(state: StateOf<D>, event: EventView)
    ensures
        state.tmux is None && perform::<D>(state, event).0.tmux is Some ==> (event matches
            EventView::DcsHook { params, byte, .. } && byte == LOWER_P && params
            == seq![TMUX_MODE]),
        state.tmux is Some && perform::<D>(state, event).0.tmux is None ==> (event matches
            EventView::DcsPut(data) && D::tmux_byte_reply(state.tmux->0, data) is Err),
{
}

/// A chunk that the tmux parser understands does not reach the state machine:
/// it is reported as the events of the tmux control mode, and nothing else.
pub proof fn lemma_tmux_chunk<D: Decoder>(parser: ParserOf<D>, bytes: Seq<u8>)
    requires
        parser.state.tmux is Some,
        D::tmux_bytes_reply(parser.state.tmux->0, bytes) is Ok,
    ensures
        take_in::<D>(parser, bytes).0.fed == parser.fed,
        take_in::<D>(parser, bytes).0.state.tmux == Some(
            D::tmux_after_bytes(parser.state.tmux->0, bytes),
        ),
        take_in::<D>(parser, bytes).0.state.sixel == parser.state.sixel,
        take_in::<D>(parser, bytes).0.state.dcs == parser.state.dcs,
        take_in::<D>(parser, bytes).0.state.get_tcap == parser.state.get_tcap,
        take_in::<D>(parser, bytes).1 == seq![
            ActionOf::<D>::DeviceControl(
                DeviceControlView::TmuxEvents(
                    D::tmux_bytes_reply(parser.state.tmux->0, bytes)->Ok_0,
                ),
            ),
        ],
{
}

/// A chunk that the tmux parser does not understand ends the tmux control
/// mode: the text that the parser gives back is parsed as if the mode had
/// never been on.
pub proof fn lemma_tmux_ends<D: Decoder>(parser: ParserOf<D>, bytes: Seq<u8>)
    requires
        parser.state.tmux is Some,
        D::tmux_bytes_reply(parser.state.tmux->0, bytes) is Err,
    ensures
        ({
            let left = ParserView { state: StateView { tmux: None, ..parser.state }, ..parser };
            let text = D::tmux_bytes_reply(parser.state.tmux->0, bytes)->Err_0;
            take_in::<D>(parser, bytes) == take_in::<D>(left, text)
        }),
{
}

/// A character to show is reported as that character, whichever it is, and
/// nothing else happens.
pub proof fn lemma_print<D: Decoder>(state: StateOf<D>, c: char)
    ensures
        perform::<D>(state, EventView::Print(c)).0 == state,
        perform::<D>(state, EventView::Print(c)).1 == seq![ActionOf::<D>::Print(c)],
{
}

/// Text is reported character by character, as it came.
pub proof fn lemma_text<D: Decoder>(state: StateOf<D>, text: Seq<EventView>)
    requires
        forall|i: int| 0 <= i < text.len() ==> #[trigger] text[i] is Print,
    ensures
        run::<D>(state, text).0 == state,
        run::<D>(state, text).1.len() == text.len(),
        forall|i: int|
            0 <= i < text.len() ==> #[trigger] run::<D>(state, text).1[i]
                == ActionOf::<D>::Print(text[i]->Print_0),
    decreases text.len(),
{
    if text.len() > 0 {
        let shorter = text.drop_last();
        lemma_text::<D>(state, shorter);
        assert(text.last() is Print);
        assert(run::<D>(state, text).1 == run::<D>(state, shorter).1 + seq![
            ActionOf::<D>::Print(text.last()->Print_0),
        ]);
    }
}

/// A control code is reported exactly where it means something to the decoder,
/// as what it means.
pub proof fn lemma_control_code<D: Decoder>(state: StateOf<D>, byte: u8)
    ensures
        perform::<D>(state, EventView::ExecuteC0orC1(byte)).0 == state,
        D::control(byte) is None ==> perform::<D>(
            state,
            EventView::ExecuteC0orC1(byte),
        ).1.len() == 0,
        forall|code: <D::Payload as View>::V|
            D::control(byte) == Some(code) ==> perform::<D>(
                state,
                EventView::ExecuteC0orC1(byte),
            ).1 == seq![ActionOf::<D>::Control(code)],
{
}

/// A control sequence is reported as all that it means, in order, whatever its
/// parameters, with none and with many.
pub proof fn lemma_control_sequence<D: Decoder>(
    state: StateOf<D>,
    params: Seq<CsiParam>,
    parameters_truncated: bool,
    byte: u8,
)
    ensures
        ({
            let event = EventView::CsiDispatch { params, parameters_truncated, byte };
            let done = perform::<D>(state, event);
            let meaning = D::csi(params, parameters_truncated, byte as char);
            &&& done.0 == state
            &&& done.1.len() == meaning.len()
            &&& forall|i: int|
                0 <= i < meaning.len() ==> #[trigger] done.1[i] == ActionOf::<D>::CSI(meaning[i])
        }),
{
}

/// Every operating system command is reported, whatever its pieces.
pub proof fn lemma_operating_system_command<D: Decoder>(state: StateOf<D>, osc: Seq<Seq<u8>>)
    ensures
        perform::<D>(state, EventView::OscDispatch(osc)).0 == state,
        perform::<D>(state, EventView::OscDispatch(osc)).1 == seq![
            ActionOf::<D>::OperatingSystemCommand(D::command(osc)),
        ],
{
}

/// Every escape sequence is reported. Its intermediate byte counts where it has
/// just one.
pub proof fn lemma_escape_sequence<D: Decoder>(
    state: StateOf<D>,
    intermediates: Seq<u8>,
    intermediate: u8,
    byte: u8,
)
    ensures
        perform::<D>(state, EventView::EscDispatch { intermediates, byte }).0 == state,
        intermediates.len() != 1 ==> perform::<D>(
            state,
            EventView::EscDispatch { intermediates, byte },
        ).1 == seq![ActionOf::<D>::Esc(D::esc(None, byte))],
        perform::<D>(
            state,
            EventView::EscDispatch { intermediates: seq![intermediate], byte },
        ).1 == seq![ActionOf::<D>::Esc(D::esc(Some(intermediate), byte))],
{
}

/// An application program command is reported exactly where it is an image to
/// the decoder, as that image.
pub proof fn lemma_program_command<D: Decoder>(state: StateOf<D>, data: Seq<u8>)
    ensures
        perform::<D>(state, EventView::ApcDispatch(data)).0 == state,
        D::image(data) is None ==> perform::<D>(state, EventView::ApcDispatch(data)).1.len()
            == 0,
        forall|image: <D::Payload as View>::V|
            D::image(data) == Some(image) ==> perform::<D>(
                state,
                EventView::ApcDispatch(data),
            ).1 == seq![ActionOf::<D>::KittyImage(image)],
{
}

/// The start of a device control string opens one collection and no other, or
/// is reported: without intermediate bytes and with the final byte `q` it is an
/// image, with `+` a capability query, with `$` a status query, and anything
/// else is reported with all that it carries.
pub proof fn lemma_string_start<D: Decoder>(
    state: StateOf<D>,
    byte: u8,
    params: Seq<i64>,
    intermediates: Seq<u8>,
    ignored: bool,
)
    ensures
        ({
            let event = EventView::DcsHook {
                params,
                intermediates,
                ignored_excess_intermediates: ignored,
                byte,
            };
            let (after, reported) = perform::<D>(state, event);
            let is_image = byte == 0x71 && intermediates.len() == 0 && !ignored;
            let is_capability = byte == 0x71 && intermediates.len() == 1 && intermediates[0]
                == 0x2b;
            let is_status = byte == 0x71 && intermediates.len() == 1 && intermediates[0] == 0x24
                && !ignored;
            let is_tmux = byte == 0x70 && params.len() == 1 && params[0] == 1000;
            &&& after.sixel == if is_image {
                Some(SixelBuilderView { sixel: blank_image(params), buf: Seq::empty() })
            } else {
                None
            }
            &&& after.get_tcap == if is_capability {
                Some(TcapView { current: Seq::empty(), names: Seq::empty() })
            } else {
                None
            }
            &&& after.dcs == if is_status {
                Some(
                    ShortDeviceControlView { params, intermediates, byte, data: Seq::empty() },
                )
            } else {
                None
            }
            &&& after.tmux == if is_tmux {
                Some(D::tmux_start())
            } else {
                state.tmux
            }
            &&& reported == if is_image || is_capability || is_status {
                Seq::empty()
            } else {
                seq![
                    ActionOf::<D>::DeviceControl(
                        DeviceControlView::Enter(
                            EnterView {
                                byte,
                                params,
                                intermediates,
                                ignored_extra_intermediates: ignored,
                            },
                        ),
                    ),
                ]
            }
        }),
{
    if intermediates.len() == 1 {
        assert(intermediates == seq![intermediates[0]]);
    }
    if params.len() == 1 {
        assert(params == seq![params[0]]);
    }
}

/// A byte of data goes to one place: to the string that is being collected; if
/// there is none to the tmux parser; and if that is not there either, it is
/// reported. All else stays.
pub proof fn lemma_string_data<D: Decoder>(state: StateOf<D>, data: u8)
    ensures
        ({
            let (after, reported) = perform::<D>(state, EventView::DcsPut(data));
            &&& state.dcs matches Some(dcs) ==> {
                &&& after.dcs == Some(
                    ShortDeviceControlView {
                        params: dcs.params,
                        intermediates: dcs.intermediates,
                        byte: dcs.byte,
                        data: dcs.data.push(data),
                    },
                )
                &&& after.sixel == state.sixel
                &&& after.get_tcap == state.get_tcap
                &&& after.tmux == state.tmux
                &&& reported.len() == 0
            }
            &&& state.dcs is None ==> (state.sixel matches Some(sixel) ==> {
                &&& after.dcs is None
                &&& after.sixel == Some(
                    SixelBuilderView { sixel: sixel.sixel, buf: sixel.buf.push(data) },
                )
                &&& after.get_tcap == state.get_tcap
                &&& after.tmux == state.tmux
                &&& reported.len() == 0
            })
            &&& state.dcs is None && state.sixel is None ==> (state.get_tcap matches Some(tcap)
                ==> {
                &&& after.dcs is None
                &&& after.sixel is None
                &&& after.get_tcap == Some(
                    if data == 0x3b {
                        TcapView {
                            current: Seq::empty(),
                            names: tcap.names.push(capability_name(tcap.current)),
                        }
                    } else {
                        TcapView { current: tcap.current.push(data), names: tcap.names }
                    },
                )
                &&& after.tmux == state.tmux
                &&& reported.len() == 0
            })
            &&& state.dcs is None && state.sixel is None && state.get_tcap is None ==> {
                &&& after.dcs is None
                &&& after.sixel is None
                &&& after.get_tcap is None
                &&& state.tmux is None ==> {
                    &&& after.tmux is None
                    &&& reported == seq![
                        ActionOf::<D>::DeviceControl(DeviceControlView::Data(data)),
                    ]
                }
                &&& state.tmux matches Some(tmux) ==> match D::tmux_byte_reply(tmux, data) {
                    Ok(Some(event)) => {
                        &&& after.tmux == Some(D::tmux_after_byte(tmux, data))
                        &&& reported == seq![
                            ActionOf::<D>::DeviceControl(
                                DeviceControlView::TmuxEvents(seq![event]),
                            ),
                        ]
                    },
                    Ok(None) => {
                        &&& after.tmux == Some(D::tmux_after_byte(tmux, data))
                        &&& reported.len() == 0
                    },
                    Err(_) => {
                        &&& after.tmux is None
                        &&& reported.len() == 0
                    },
                }
            }
        }),
{
}

/// The end of a device control string gives one action: the string that was
/// collected, which is then forgotten, or that a string has ended. All else
/// stays.
pub proof fn lemma_string_end<D: Decoder>(state: StateOf<D>)
    ensures
        ({
            let (after, reported) = perform::<D>(state, EventView::DcsUnhook);
            &&& after.tmux == state.tmux
            &&& reported.len() == 1
            &&& state.dcs matches Some(dcs) ==> {
                &&& after.dcs is None
                &&& after.sixel == state.sixel
                &&& after.get_tcap == state.get_tcap
                &&& reported[0] == ActionOf::<D>::DeviceControl(
                    DeviceControlView::ShortDeviceControl(dcs),
                )
            }
            &&& state.dcs is None ==> (state.sixel matches Some(sixel) ==> {
                &&& after.dcs is None
                &&& after.sixel is None
                &&& after.get_tcap == state.get_tcap
                &&& reported[0] == ActionOf::<D>::Sixel(sixel.sixel.read(sixel.buf, 0))
            })
            &&& state.dcs is None && state.sixel is None ==> (state.get_tcap matches Some(tcap)
                ==> {
                &&& after.dcs is None
                &&& after.sixel is None
                &&& after.get_tcap is None
                &&& reported[0] == ActionOf::<D>::XtGetTcap(
                    tcap.names.push(capability_name(tcap.current)),
                )
            })
            &&& state.dcs is None && state.sixel is None && state.get_tcap is None ==> {
                &&& after == state
                &&& reported[0] == ActionOf::<D>::DeviceControl(DeviceControlView::Exit)
            }
        }),
{
}

/// Nothing is collected to begin with, nothing has been taken in, and the tmux
/// control mode is off.
pub proof fn lemma_initial<D: Decoder>()
    ensures
        ({
            let parser = ParserOf::<D>::initial();
            &&& parser.fed.len() == 0
            &&& parser.state.sixel is None
            &&& parser.state.dcs is None
            &&& parser.state.get_tcap is None
            &&& parser.state.tmux is None
            &&& StateOf::<D>::initial() == parser.state
        }),
{
}

/// What is collected of device control strings, and nothing else, is dropped
/// from a state that is cleared.
pub proof fn lemma_cleared<D: Decoder>(state: StateOf<D>)
    ensures
        state.cleared().sixel is None,
        state.cleared().dcs is None,
        state.cleared().get_tcap is None,
        state.cleared().tmux == state.tmux,
{
}

/// A status query has the one intermediate byte `$` and the final byte `q`, and
/// nothing else is one.
pub proof fn lemma_status_query(intermediates: Seq<u8>, byte: u8)
    ensures
        is_status_query(intermediates, byte) <==> intermediates.len() == 1 && intermediates[0]
            == 0x24 && byte == 0x71,
{
    if intermediates.len() == 1 && intermediates[0] == 0x24 {
        assert(intermediates == seq![0x24u8]);
    }
}

/// A state is 7-bit exactly where no byte of the image data that it holds is
/// beyond ASCII.
pub proof fn lemma_seven_bit<D: Decoder>(state: StateOf<D>)
    ensures
        state.sixel is None ==> state.is_seven_bit(),
        state.sixel matches Some(sixel) ==> (state.is_seven_bit() <==> forall|i: int|
            0 <= i < sixel.buf.len() ==> #[trigger] sixel.buf[i] <= 0x7f),
{
}

/// No events do nothing, and one event does what it does.
pub proof fn lemma_run_single<D: Decoder>(state: StateOf<D>, event: EventView)
    ensures
        run::<D>(state, Seq::empty()).0 == state,
        run::<D>(state, Seq::empty()).1.len() == 0,
        run::<D>(state, seq![event]).0 == perform::<D>(state, event).0,
        run::<D>(state, seq![event]).1 == perform::<D>(state, event).1,
{
    lemma_run_one::<D>(state, event);
}

/// No bytes do nothing, and one byte is taken in by the state machine, all of
/// whose events are performed.
pub proof fn lemma_feed_single<D: Decoder>(parser: ParserOf<D>, byte: u8)
    ensures
        feed::<D>(parser, Seq::empty()).0 == parser,
        feed::<D>(parser, Seq::empty()).1.len() == 0,
        feed::<D>(parser, seq![byte]).0.fed == parser.fed.push(byte),
        feed::<D>(parser, seq![byte]).0.state == run::<D>(
            parser.state,
            dispatched(parser.fed, byte),
        ).0,
        feed::<D>(parser, seq![byte]).1 == run::<D>(
            parser.state,
            dispatched(parser.fed, byte),
        ).1,
        feed::<D>(parser, seq![byte]).0 == step::<D>(parser, byte).0,
        feed::<D>(parser, seq![byte]).1 == step::<D>(parser, byte).1,
{
    let bytes = seq![byte];
    assert(bytes.drop_last() == Seq::<u8>::empty());
    reveal_with_fuel(feed, 2);
    let done = step::<D>(parser, byte);
    assert(Seq::<ActionOf<D>>::empty() + done.1 == done.1);
}

/// Outside the tmux control mode all bytes of a chunk are fed to the state
/// machine, and to nothing else.
pub proof fn lemma_chunk_is_fed<D: Decoder>(parser: ParserOf<D>, bytes: Seq<u8>)
    requires
        parser.state.tmux is None,
    ensures
        take_in::<D>(parser, bytes).0 == feed::<D>(parser, bytes).0,
        take_in::<D>(parser, bytes).1 == feed::<D>(parser, bytes).1,
{
}

/// The place to halt is the least length from which any action is decoded,
/// and nothing else is.
pub proof fn lemma_first_length<D: Decoder>(parser: ParserOf<D>, bytes: Seq<u8>, length: int)
    ensures
        is_first_length::<D>(parser, bytes, length) <==> {
            &&& 0 < length <= bytes.len()
            &&& feed::<D>(parser, bytes.take(length)).1.len() > 0
            &&& forall|fewer: int|
                0 <= fewer < length ==> (#[trigger] feed::<D>(
                    parser,
                    bytes.take(fewer),
                )).1.len() == 0
        },
{
    if is_first_length::<D>(parser, bytes, length) {
        assert forall|fewer: int| 0 <= fewer < length implies (#[trigger] feed::<D>(
            parser,
            bytes.take(fewer),
        )).1.len() == 0 by {
            lemma_first_is_least::<D>(parser, bytes, length, fewer);
        }
    }
}

} // verus!
