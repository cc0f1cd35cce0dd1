//! What becomes of the events that the state machine reports.

use crate::action::{
    Action, DeviceControlMode, EnterDeviceControlMode, ShortDeviceControl,
};
#[allow(unused_imports)]
use crate::action::{
    action_views, ActionView, DeviceControlView, EnterView, ShortDeviceControlView,
};
use crate::decode::Decoder;
#[allow(unused_imports)]
use crate::decode::{option_view, payload_views};
#[allow(unused_imports)]
use crate::machine::EventView;
use crate::machine::VtEvent;
use crate::sixel::SixelBuilder;
#[allow(unused_imports)]
use crate::sixel::{blank_image, SixelBuilderView};
use crate::tcap::GetTcapBuilder;
#[allow(unused_imports)]
use crate::tcap::TcapView;
use vstd::prelude::*;
use vtparse::CsiParam;

verus! {

/// `$`, the intermediate byte of a status query.
pub const DOLLAR: u8 = 0x24;

/// `+`, the intermediate byte of a capability query.
pub const PLUS: u8 = 0x2b;

/// `p`, the final byte of the control string that enters the tmux mode.
pub const LOWER_P: u8 = 0x70;

/// `q`, the final byte of sixel images and of queries.
pub const LOWER_Q: u8 = 0x71;

/// The parameter of the control string that enters the tmux mode.
pub const TMUX_MODE: i64 = 1000;

/// The device control strings that are being collected.
pub struct ParseState<D: Decoder> {
    sixel: Option<SixelBuilder>,
    dcs: Option<ShortDeviceControl>,
    get_tcap: Option<GetTcapBuilder>,
    tmux_state: Option<D::Tmux>,
}

/// The mathematical value of a [`ParseState`], where `T` is that of a tmux
/// parser.
#[verifier::ext_equal]
pub ghost struct StateView<T> {
    pub sixel: Option<SixelBuilderView>,
    pub dcs: Option<ShortDeviceControlView>,
    pub get_tcap: Option<TcapView>,
    pub tmux: Option<T>,
}

/// The value of a state with the decoder `D`.
pub type StateOf<D> = StateView<<<D as Decoder>::Tmux as View>::V>;

/// The value of an action with the decoder `D`.
pub type ActionOf<D> = ActionView<<<D as Decoder>::Payload as View>::V>;

impl<D: Decoder> View for ParseState<D> {
    type V = StateOf<D>;

    closed spec fn view(&self) -> StateOf<D> {
        StateView {
            sixel: option_view(self.sixel),
            dcs: option_view(self.dcs),
            get_tcap: option_view(self.get_tcap),
            tmux: option_view(self.tmux_state),
        }
    }
}

impl<T> StateView<T> {
    /// No device control string is being collected.
    pub open spec fn initial() -> StateView<T> {
        StateView { sixel: None, dcs: None, get_tcap: None, tmux: None }
    }

    /// Whether the data of a sixel image that is being collected is 7-bit.
    pub open spec fn is_seven_bit(self) -> bool {
        self.sixel matches Some(sixel) ==> forall|i: int|
            0 <= i < sixel.buf.len() ==> #[trigger] sixel.buf[i] < 0x80
    }

    /// The state without what was collected of device control strings.
    pub open spec fn cleared(self) -> StateView<T> {
        StateView { sixel: None, dcs: None, get_tcap: None, ..self }
    }
}

/// Whether a device control string is a status query.
pub open spec fn is_status_query(intermediates: Seq<u8>, byte: u8) -> bool {
    intermediates == seq![DOLLAR] && byte == LOWER_Q
}

/// Whether a device control string is short enough to be reported as a whole:
/// a status query.
pub fn is_short_dcs(intermediates: &[u8], byte: u8) -> (short: bool)
    ensures
        short == is_status_query(intermediates@, byte),
{
    let short = intermediates.len() == 1 && intermediates[0] == DOLLAR && byte == LOWER_Q;
    assert(short ==> intermediates@ == seq![DOLLAR]);
    short
}

/// What the start of a device control string does: which kind of string is
/// collected from now on, and what is reported at once.
pub open spec fn hook<D: Decoder>(
    state: StateOf<D>,
    byte: u8,
    params: Seq<i64>,
    intermediates: Seq<u8>,
    ignored_extra_intermediates: bool,
) -> (StateOf<D>, Seq<ActionOf<D>>) {
    let cleared = state.cleared();
    if byte == LOWER_Q && intermediates.len() == 0 && !ignored_extra_intermediates {
        (
            StateView {
                sixel: Some(
                    SixelBuilderView { sixel: blank_image(params), buf: Seq::empty() },
                ),
                ..cleared
            },
            Seq::empty(),
        )
    } else if byte == LOWER_Q && intermediates == seq![PLUS] {
        (StateView { get_tcap: Some(TcapView::empty()), ..cleared }, Seq::empty())
    } else if !ignored_extra_intermediates && is_status_query(intermediates, byte) {
        (
            StateView {
                dcs: Some(
                    ShortDeviceControlView { params, intermediates, byte, data: Seq::empty() },
                ),
                ..cleared
            },
            Seq::empty(),
        )
    } else {
        (
            if byte == LOWER_P && params == seq![TMUX_MODE] {
                StateView { tmux: Some(D::tmux_start()), ..cleared }
            } else {
                cleared
            },
            seq![
                ActionView::DeviceControl(
                    DeviceControlView::Enter(
                        EnterView { byte, params, intermediates, ignored_extra_intermediates },
                    ),
                ),
            ],
        )
    }
}

/// What one byte of the data of a device control string does.
pub open spec fn put<D: Decoder>(state: StateOf<D>, data: u8) -> (StateOf<D>, Seq<ActionOf<D>>) {
    if let Some(dcs) = state.dcs {
        (
            StateView {
                dcs: Some(ShortDeviceControlView { data: dcs.data.push(data), ..dcs }),
                ..state
            },
            Seq::empty(),
        )
    } else if let Some(sixel) = state.sixel {
        (
            StateView {
                sixel: Some(SixelBuilderView { buf: sixel.buf.push(data), ..sixel }),
                ..state
            },
            Seq::empty(),
        )
    } else if let Some(tcap) = state.get_tcap {
        (StateView { get_tcap: Some(tcap.push(data)), ..state }, Seq::empty())
    } else if let Some(tmux) = state.tmux {
        match D::tmux_byte_reply(tmux, data) {
            Ok(event) => (
                StateView { tmux: Some(D::tmux_after_byte(tmux, data)), ..state },
                match event {
                    Some(event) => seq![
                        ActionView::DeviceControl(DeviceControlView::TmuxEvents(seq![event])),
                    ],
                    None => Seq::empty(),
                },
            ),
            Err(_) => (StateView { tmux: None, ..state }, Seq::empty()),
        }
    } else {
        (state, seq![ActionView::DeviceControl(DeviceControlView::Data(data))])
    }
}

/// What the end of a device control string does.
pub open spec fn unhook<D: Decoder>(state: StateOf<D>) -> (StateOf<D>, Seq<ActionOf<D>>) {
    if let Some(dcs) = state.dcs {
        (
            StateView { dcs: None, ..state },
            seq![ActionView::DeviceControl(DeviceControlView::ShortDeviceControl(dcs))],
        )
    } else if let Some(sixel) = state.sixel {
        (
            StateView { sixel: None, ..state },
            seq![ActionView::Sixel(sixel.sixel.read(sixel.buf, 0))],
        )
    } else if let Some(tcap) = state.get_tcap {
        (
            StateView { get_tcap: None, ..state },
            seq![ActionView::XtGetTcap(tcap.flush().names)],
        )
    } else {
        (state, seq![ActionView::DeviceControl(DeviceControlView::Exit)])
    }
}

/// The one intermediate byte of an escape sequence, if there is just one.
pub open spec fn only_intermediate(intermediates: Seq<u8>) -> Option<u8> {
    if intermediates.len() == 1 {
        Some(intermediates[0])
    } else {
        None
    }
}

/// What one event does to the state, and the actions that it amounts to.
pub open spec fn perform<D: Decoder>(state: StateOf<D>, event: EventView) -> (
    StateOf<D>,
    Seq<ActionOf<D>>,
) {
    match event {
        EventView::Print(c) => (state, seq![ActionView::Print(c)]),
        EventView::ExecuteC0orC1(byte) => (
            state,
            match D::control(byte) {
                Some(code) => seq![ActionView::Control(code)],
                None => Seq::empty(),
            },
        ),
        EventView::DcsHook { params, intermediates, ignored_excess_intermediates, byte } => hook::<
            D,
        >(state, byte, params, intermediates, ignored_excess_intermediates),
        EventView::DcsPut(data) => put::<D>(state, data),
        EventView::DcsUnhook => unhook::<D>(state),
        EventView::EscDispatch { intermediates, byte } => (
            state,
            seq![ActionView::Esc(D::esc(only_intermediate(intermediates), byte))],
        ),
        EventView::CsiDispatch { params, parameters_truncated, byte } => (
            state,
            D::csi(params, parameters_truncated, byte as char).map_values(
                |csi: <D::Payload as View>::V| ActionView::CSI(csi),
            ),
        ),
        EventView::OscDispatch(osc) => (
            state,
            seq![ActionView::OperatingSystemCommand(D::command(osc))],
        ),
        EventView::ApcDispatch(data) => (
            state,
            match D::image(data) {
                Some(image) => seq![ActionView::KittyImage(image)],
                None => Seq::empty(),
            },
        ),
    }
}

/// Reports one action.
fn emit<P: View>(actions: &mut Vec<Action<P>>, action: Action<P>)
    ensures
        action_views(final(actions)@) == action_views(old(actions)@) + seq![action@],
{
    let ghost before = actions@;
    actions.push(action);
    assert(action_views(actions@) == action_views(before) + seq![action@]);
}

impl<D: Decoder> ParseState<D> {
    /// The state in which no device control string is being collected.
    pub fn new() -> (state: Self)
        ensures
            state@ == StateOf::<D>::initial(),
    {
        ParseState { sixel: None, dcs: None, get_tcap: None, tmux_state: None }
    }

    /// A character is to be shown.
    pub fn print(&mut self, c: char, actions: &mut Vec<Action<D::Payload>>)
        ensures
            final(self)@ == perform::<D>(old(self)@, EventView::Print(c)).0,
            action_views(final(actions)@) == action_views(old(actions)@) + perform::<D>(
                old(self)@,
                EventView::Print(c),
            ).1,
    {
        emit(actions, Action::Print(c));
    }

    /// A control code is to be executed.
    pub fn execute_c0_or_c1(&mut self, byte: u8, actions: &mut Vec<Action<D::Payload>>)
        ensures
            final(self)@ == perform::<D>(old(self)@, EventView::ExecuteC0orC1(byte)).0,
            action_views(final(actions)@) == action_views(old(actions)@) + perform::<D>(
                old(self)@,
                EventView::ExecuteC0orC1(byte),
            ).1,
    {
        match D::decode_control(byte) {
            Some(code) => emit(actions, Action::Control(code)),
            None => {
                assert(action_views(actions@) + Seq::<ActionOf<D>>::empty() == action_views(
                    actions@,
                ));
            },
        }
    }

    /// An application program command has come to its end.
    pub fn apc_dispatch(&mut self, data: Vec<u8>, actions: &mut Vec<Action<D::Payload>>)
        ensures
            final(self)@ == perform::<D>(old(self)@, EventView::ApcDispatch(data@)).0,
            action_views(final(actions)@) == action_views(old(actions)@) + perform::<D>(
                old(self)@,
                EventView::ApcDispatch(data@),
            ).1,
    {
        match D::decode_image(data) {
            Some(image) => emit(actions, Action::KittyImage(image)),
            None => {
                assert(action_views(actions@) + Seq::<ActionOf<D>>::empty() == action_views(
                    actions@,
                ));
            },
        }
    }

    /// A device control string starts.
    pub fn dcs_hook(
        &mut self,
        byte: u8,
        params: Vec<i64>,
        intermediates: Vec<u8>,
        ignored_extra_intermediates: bool,
        actions: &mut Vec<Action<D::Payload>>,
    )
        ensures
            final(self)@ == hook::<D>(
                old(self)@,
                byte,
                params@,
                intermediates@,
                ignored_extra_intermediates,
            ).0,
            action_views(final(actions)@) == action_views(old(actions)@) + hook::<D>(
                old(self)@,
                byte,
                params@,
                intermediates@,
                ignored_extra_intermediates,
            ).1,
    {
        assert(action_views(actions@) + Seq::<ActionOf<D>>::empty() == action_views(actions@));
        self.sixel = None;
        self.get_tcap = None;
        self.dcs = None;
        let is_capability_query = intermediates.len() == 1 && intermediates[0] == PLUS;
        let is_tmux_mode = params.len() == 1 && params[0] == TMUX_MODE;
        assert(is_capability_query ==> intermediates@ == seq![PLUS]);
        assert(is_tmux_mode ==> params@ == seq![TMUX_MODE]);
        if byte == LOWER_Q && intermediates.is_empty() && !ignored_extra_intermediates {
            self.sixel = Some(SixelBuilder::new(params.as_slice()));
        } else if byte == LOWER_Q && is_capability_query {
            self.get_tcap = Some(GetTcapBuilder::default());
        } else if !ignored_extra_intermediates && is_short_dcs(intermediates.as_slice(), byte) {
            self.dcs = Some(ShortDeviceControl { params, intermediates, byte, data: Vec::new() });
        } else {
            if byte == LOWER_P && is_tmux_mode {
                self.tmux_state = Some(D::start_tmux());
            }
            emit(
                actions,
                Action::DeviceControl(
                    DeviceControlMode::Enter(
                        Box::new(
                            EnterDeviceControlMode {
                                byte,
                                params,
                                intermediates,
                                ignored_extra_intermediates,
                            },
                        ),
                    ),
                ),
            );
        }
    }

    /// One byte of the data of a device control string has come.
    pub fn dcs_put(&mut self, data: u8, actions: &mut Vec<Action<D::Payload>>)
        ensures
            final(self)@ == put::<D>(old(self)@, data).0,
            action_views(final(actions)@) == action_views(old(actions)@) + put::<D>(
                old(self)@,
                data,
            ).1,
    {
        assert(action_views(actions@) + Seq::<ActionOf<D>>::empty() == action_views(actions@));
        if let Some(dcs) = &mut self.dcs {
            dcs.data.push(data);
        } else if let Some(sixel) = &mut self.sixel {
            sixel.push(data);
        } else if let Some(tcap) = &mut self.get_tcap {
            tcap.push(data);
        } else {
            match self.tmux_state.take() {
                Some(mut tmux) => {
                    match D::advance_tmux_byte(&mut tmux, data) {
                        Ok(optional_event) => {
                            self.tmux_state = Some(tmux);
                            if let Some(event) = optional_event {
                                let ghost value = event@;
                                let events = vec![event];
                                assert(payload_views(events@) == seq![value]);
                                emit(
                                    actions,
                                    Action::DeviceControl(
                                        DeviceControlMode::TmuxEvents(Box::new(events)),
                                    ),
                                );
                            }
                        },
                        Err(_) => {},
                    }
                },
                None => {
                    emit(actions, Action::DeviceControl(DeviceControlMode::Data(data)));
                },
            }
        }
    }

    /// A device control string has come to its end.
    pub fn dcs_unhook(&mut self, actions: &mut Vec<Action<D::Payload>>)
        ensures
            final(self)@ == unhook::<D>(old(self)@).0,
            action_views(final(actions)@) == action_views(old(actions)@) + unhook::<D>(
                old(self)@,
            ).1,
    {
        if let Some(dcs) = self.dcs.take() {
            emit(
                actions,
                Action::DeviceControl(DeviceControlMode::ShortDeviceControl(Box::new(dcs))),
            );
        } else if let Some(mut sixel) = self.sixel.take() {
            sixel.finish();
            emit(actions, Action::Sixel(Box::new(sixel.into_sixel())));
        } else if let Some(tcap) = self.get_tcap.take() {
            emit(actions, Action::XtGetTcap(tcap.finish()));
        } else {
            emit(actions, Action::DeviceControl(DeviceControlMode::Exit));
        }
    }

    /// An operating system command has come to its end.
    pub fn osc_dispatch(&mut self, osc: Vec<Vec<u8>>, actions: &mut Vec<Action<D::Payload>>)
        ensures
            final(self)@ == perform::<D>(old(self)@, VtEvent::OscDispatch(osc)@).0,
            action_views(final(actions)@) == action_views(old(actions)@) + perform::<D>(
                old(self)@,
                VtEvent::OscDispatch(osc)@,
            ).1,
    {
        let command = D::decode_command(osc);
        emit(actions, Action::OperatingSystemCommand(Box::new(command)));
    }

    /// A control sequence has come to its end.
    pub fn csi_dispatch(
        &mut self,
        params: Vec<CsiParam>,
        parameters_truncated: bool,
        control: u8,
        actions: &mut Vec<Action<D::Payload>>,
    )
        ensures
            final(self)@ == perform::<D>(
                old(self)@,
                EventView::CsiDispatch { params: params@, parameters_truncated, byte: control },
            ).0,
            action_views(final(actions)@) == action_views(old(actions)@) + perform::<D>(
                old(self)@,
                EventView::CsiDispatch { params: params@, parameters_truncated, byte: control },
            ).1,
    {
        let ghost csi = D::csi(params@, parameters_truncated, control as char);
        let payloads = D::decode_csi(params, parameters_truncated, control as char);
        let ghost before = action_views(actions@);
        let ghost all = csi.map_values(|csi: <D::Payload as View>::V| ActionView::CSI(csi));
        for payload in iter: payloads
            invariant
                payload_views(iter.seq()) == csi,
                all == csi.map_values(|csi: <D::Payload as View>::V| ActionView::CSI(csi)),
                action_views(actions@) == before + all.take(iter.index()),
        {
            emit(actions, Action::CSI(payload));
            assert(all.take(iter.index() + 1) == all.take(iter.index()).push(
                all[iter.index() as int],
            ));
        }
    }

    /// An escape sequence has come to its end.
    pub fn esc_dispatch(
        &mut self,
        intermediates: Vec<u8>,
        control: u8,
        actions: &mut Vec<Action<D::Payload>>,
    )
        ensures
            final(self)@ == perform::<D>(
                old(self)@,
                EventView::EscDispatch { intermediates: intermediates@, byte: control },
            ).0,
            action_views(final(actions)@) == action_views(old(actions)@) + perform::<D>(
                old(self)@,
                EventView::EscDispatch { intermediates: intermediates@, byte: control },
            ).1,
    {
        let intermediate = if intermediates.len() == 1 {
            Some(intermediates[0])
        } else {
            None
        };
        emit(actions, Action::Esc(D::decode_esc(intermediate, control)));
    }

    /// Takes in one event.
    pub fn perform(&mut self, event: VtEvent, actions: &mut Vec<Action<D::Payload>>)
        ensures
            final(self)@ == perform::<D>(old(self)@, event@).0,
            action_views(final(actions)@) == action_views(old(actions)@) + perform::<D>(
                old(self)@,
                event@,
            ).1,
    {
        match event {
            VtEvent::Print(c) => self.print(c, actions),
            VtEvent::ExecuteC0orC1(byte) => self.execute_c0_or_c1(byte, actions),
            VtEvent::DcsHook { params, intermediates, ignored_excess_intermediates, byte } =>
                self.dcs_hook(byte, params, intermediates, ignored_excess_intermediates, actions),
            VtEvent::DcsPut(data) => self.dcs_put(data, actions),
            VtEvent::DcsUnhook => self.dcs_unhook(actions),
            VtEvent::EscDispatch { intermediates, byte } =>
                self.esc_dispatch(intermediates, byte, actions),
            VtEvent::CsiDispatch { params, parameters_truncated, byte } =>
                self.csi_dispatch(params, parameters_truncated, byte, actions),
            VtEvent::OscDispatch(osc) => self.osc_dispatch(osc, actions),
            VtEvent::ApcDispatch(data) => self.apc_dispatch(data, actions),
        }
    }

    /// Whether the tmux control mode is on.
    pub fn is_tmux_mode(&self) -> (on: bool)
        ensures
            on == self@.tmux is Some,
    {
        self.tmux_state.is_some()
    }

    /// Hands a chunk of bytes to the tmux parser. Where the bytes are not part
    /// of the control mode, the mode ends, and the text is given back that is
    /// to be parsed without it.
    pub fn tmux_bytes(&mut self, bytes: &[u8], actions: &mut Vec<Action<D::Payload>>) -> (unparsed:
        Option<Vec<u8>>)
        requires
            old(self)@.tmux is Some,
        ensures
            match D::tmux_bytes_reply(old(self)@.tmux->0, bytes@) {
                Ok(events) => {
                    &&& unparsed is None
                    &&& final(self)@ == (StateView {
                        tmux: Some(D::tmux_after_bytes(old(self)@.tmux->0, bytes@)),
                        ..old(self)@
                    })
                    &&& action_views(final(actions)@) == action_views(old(actions)@) + seq![
                        ActionView::DeviceControl(DeviceControlView::TmuxEvents(events)),
                    ]
                },
                Err(text) => {
                    &&& unparsed matches Some(rest) && rest@ == text
                    &&& final(self)@ == (StateView { tmux: None, ..old(self)@ })
                    &&& final(actions)@ == old(actions)@
                },
            },
    {
        match self.tmux_state.take() {
            Some(mut tmux) => match D::advance_tmux_bytes(&mut tmux, bytes) {
                Ok(events) => {
                    self.tmux_state = Some(tmux);
                    emit(
                        actions,
                        Action::DeviceControl(DeviceControlMode::TmuxEvents(Box::new(events))),
                    );
                    None
                },
                Err(text) => Some(text),
            },
            None => None,
        }
    }
}

} // verus!
