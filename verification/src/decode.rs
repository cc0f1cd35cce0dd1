//! What the sequences mean whose contents the parser only delimits.

use vstd::prelude::*;
use vtparse::CsiParam;

verus! {

/// The value of an optional payload.
pub open spec fn option_view<P: View>(option: Option<P>) -> Option<P::V> {
    match option {
        Some(payload) => Some(payload@),
        None => None,
    }
}

/// The values of a list of payloads.
pub open spec fn payload_views<P: View>(payloads: Seq<P>) -> Seq<P::V> {
    payloads.map_values(|payload: P| payload@)
}

/// Gives the sequences their meaning. Each method is a function of its
/// arguments: the same sequence always means the same.
///
/// A verified decoder says with the spec functions what its methods compute.
/// A decoder in ordinary Rust leaves them out: each is then some function of its
/// arguments of which nothing is known. That the methods of such a decoder are
/// functions of their arguments is believed, not proved.
pub trait Decoder: Sized {
    /// What a sequence is decoded to.
    type Payload: View;

    /// The parser of the tmux control mode.
    type Tmux: View;

    /// What a control code means, if anything.
    open spec fn control(byte: u8) -> Option<<Self::Payload as View>::V> {
        let unknown: spec_fn(u8) -> Option<<Self::Payload as View>::V> = arbitrary();
        unknown(byte)
    }

    /// The image that an application program command carries, if any.
    open spec fn image(data: Seq<u8>) -> Option<<Self::Payload as View>::V> {
        let unknown: spec_fn(Seq<u8>) -> Option<<Self::Payload as View>::V> = arbitrary();
        unknown(data)
    }

    /// What an operating system command means.
    open spec fn command(osc: Seq<Seq<u8>>) -> <Self::Payload as View>::V {
        let unknown: spec_fn(Seq<Seq<u8>>) -> <Self::Payload as View>::V = arbitrary();
        unknown(osc)
    }

    /// What a control sequence means, one payload after the other.
    open spec fn csi(
        params: Seq<CsiParam>,
        parameters_truncated: bool,
        control: char,
    ) -> Seq<<Self::Payload as View>::V> {
        let unknown: spec_fn(Seq<CsiParam>, bool, char) -> Seq<<Self::Payload as View>::V> =
            arbitrary();
        unknown(params, parameters_truncated, control)
    }

    /// What an escape sequence means.
    open spec fn esc(intermediate: Option<u8>, control: u8) -> <Self::Payload as View>::V {
        let unknown: spec_fn(Option<u8>, u8) -> <Self::Payload as View>::V = arbitrary();
        unknown(intermediate, control)
    }

    /// The tmux parser before it has seen anything.
    open spec fn tmux_start() -> <Self::Tmux as View>::V {
        arbitrary()
    }

    /// The tmux parser after one byte more.
    open spec fn tmux_after_byte(
        tmux: <Self::Tmux as View>::V,
        data: u8,
    ) -> <Self::Tmux as View>::V {
        let unknown: spec_fn(<Self::Tmux as View>::V, u8) -> <Self::Tmux as View>::V = arbitrary();
        unknown(tmux, data)
    }

    /// The event that one byte more completes, if any, or an error.
    open spec fn tmux_byte_reply(tmux: <Self::Tmux as View>::V, data: u8) -> Result<
        Option<<Self::Payload as View>::V>,
        (),
    > {
        let unknown: spec_fn(<Self::Tmux as View>::V, u8) -> Result<Option<<Self::Payload as View>::V>, ()> = arbitrary();
        unknown(tmux, data)
    }

    /// The tmux parser after a chunk of bytes.
    open spec fn tmux_after_bytes(
        tmux: <Self::Tmux as View>::V,
        bytes: Seq<u8>,
    ) -> <Self::Tmux as View>::V {
        let unknown: spec_fn(<Self::Tmux as View>::V, Seq<u8>) -> <Self::Tmux as View>::V = arbitrary();
        unknown(tmux, bytes)
    }

    /// The events that a chunk of bytes completes, or the text that is not
    /// part of the control mode.
    open spec fn tmux_bytes_reply(tmux: <Self::Tmux as View>::V, bytes: Seq<u8>) -> Result<
        Seq<<Self::Payload as View>::V>,
        Seq<u8>,
    > {
        let unknown: spec_fn(<Self::Tmux as View>::V, Seq<u8>) -> Result<Seq<<Self::Payload as View>::V>, Seq<u8>> = arbitrary();
        unknown(tmux, bytes)
    }

    /// Decodes a control code.
    fn decode_control(byte: u8) -> (code: Option<Self::Payload>)
        ensures
            option_view(code) == Self::control(byte),
    ;

    /// Decodes an application program command.
    fn decode_image(data: Vec<u8>) -> (image: Option<Self::Payload>)
        ensures
            option_view(image) == Self::image(data@),
    ;

    /// Decodes an operating system command.
    fn decode_command(osc: Vec<Vec<u8>>) -> (command: Self::Payload)
        ensures
            command@ == Self::command(osc@.map_values(|piece: Vec<u8>| piece@)),
    ;

    /// Decodes a control sequence.
    fn decode_csi(params: Vec<CsiParam>, parameters_truncated: bool, control: char) -> (payloads:
        Vec<Self::Payload>)
        ensures
            payload_views(payloads@) == Self::csi(params@, parameters_truncated, control),
    ;

    /// Decodes an escape sequence.
    fn decode_esc(intermediate: Option<u8>, control: u8) -> (payload: Self::Payload)
        ensures
            payload@ == Self::esc(intermediate, control),
    ;

    /// Enters the tmux control mode.
    fn start_tmux() -> (tmux: Self::Tmux)
        ensures
            tmux@ == Self::tmux_start(),
    ;

    /// Hands one byte to the tmux parser.
    fn advance_tmux_byte(tmux: &mut Self::Tmux, data: u8) -> (reply: Result<
        Option<Self::Payload>,
        (),
    >)
        ensures
            final(tmux)@ == Self::tmux_after_byte(old(tmux)@, data),
            match reply {
                Ok(event) => Self::tmux_byte_reply(old(tmux)@, data) == Ok::<_, ()>(
                    option_view(event),
                ),
                Err(_) => Self::tmux_byte_reply(old(tmux)@, data) is Err,
            },
    ;

    /// Hands a chunk of bytes to the tmux parser.
    fn advance_tmux_bytes(tmux: &mut Self::Tmux, bytes: &[u8]) -> (reply: Result<
        Vec<Self::Payload>,
        Vec<u8>,
    >)
        ensures
            final(tmux)@ == Self::tmux_after_bytes(old(tmux)@, bytes@),
            match reply {
                Ok(events) => Self::tmux_bytes_reply(old(tmux)@, bytes@) == Ok::<_, Seq<u8>>(
                    payload_views(events@),
                ),
                Err(text) => Self::tmux_bytes_reply(old(tmux)@, bytes@) == Err::<
                    Seq<<Self::Payload as View>::V>,
                    _,
                >(text@),
            },
    ;
}

/// A payload, or a tmux parser, whose mathematical value is the thing itself.
#[derive(Debug, Clone, Copy, PartialEq, Eq)]
pub struct Opaque<T>(pub T);

impl<T> View for Opaque<T> {
    type V = T;

    open spec fn view(&self) -> T {
        self.0
    }
}

/// A sequence that was not decoded.
#[derive(Debug, Clone, PartialEq)]
#[allow(inconsistent_fields)]
pub enum Sequence {
    /// A control code.
    Control(u8),
    /// The data of an application program command.
    Image(Vec<u8>),
    /// The pieces of an operating system command.
    Command(Vec<Vec<u8>>),
    /// A control sequence.
    Csi { params: Vec<CsiParam>, parameters_truncated: bool, control: char },
    /// An escape sequence.
    Esc { intermediate: Option<u8>, control: u8 },
    /// Bytes of the tmux control mode.
    Tmux(Vec<u8>),
}

/// The mathematical value of a [`Sequence`].
#[verifier::ext_equal]
#[allow(inconsistent_fields)]
pub ghost enum SequenceView {
    Control(u8),
    Image(Seq<u8>),
    Command(Seq<Seq<u8>>),
    Csi { params: Seq<CsiParam>, parameters_truncated: bool, control: char },
    Esc { intermediate: Option<u8>, control: u8 },
    Tmux(Seq<u8>),
}

impl View for Sequence {
    type V = SequenceView;

    open spec fn view(&self) -> SequenceView {
        match self {
            Sequence::Control(byte) => SequenceView::Control(*byte),
            Sequence::Image(data) => SequenceView::Image(data@),
            Sequence::Command(osc) => SequenceView::Command(
                osc@.map_values(|piece: Vec<u8>| piece@),
            ),
            Sequence::Csi { params, parameters_truncated, control } => SequenceView::Csi {
                params: params@,
                parameters_truncated: *parameters_truncated,
                control: *control,
            },
            Sequence::Esc { intermediate, control } => SequenceView::Esc {
                intermediate: *intermediate,
                control: *control,
            },
            Sequence::Tmux(bytes) => SequenceView::Tmux(bytes@),
        }
    }
}

/// Hands every sequence on as it came.
#[derive(Debug, Clone, Copy, PartialEq, Eq)]
pub struct Undecoded;

impl Decoder for Undecoded {
    type Payload = Sequence;

    type Tmux = ();

    open spec fn control(byte: u8) -> Option<SequenceView> {
        Some(SequenceView::Control(byte))
    }

    open spec fn image(data: Seq<u8>) -> Option<SequenceView> {
        Some(SequenceView::Image(data))
    }

    open spec fn command(osc: Seq<Seq<u8>>) -> SequenceView {
        SequenceView::Command(osc)
    }

    open spec fn csi(
        params: Seq<CsiParam>,
        parameters_truncated: bool,
        control: char,
    ) -> Seq<SequenceView> {
        seq![SequenceView::Csi { params, parameters_truncated, control }]
    }

    open spec fn esc(intermediate: Option<u8>, control: u8) -> SequenceView {
        SequenceView::Esc { intermediate, control }
    }

    open spec fn tmux_start() {
        ()
    }

    open spec fn tmux_after_byte(tmux: (), data: u8) {
        ()
    }

    open spec fn tmux_byte_reply(tmux: (), data: u8) -> Result<Option<SequenceView>, ()> {
        Ok(Some(SequenceView::Tmux(seq![data])))
    }

    open spec fn tmux_after_bytes(tmux: (), bytes: Seq<u8>) {
        ()
    }

    open spec fn tmux_bytes_reply(tmux: (), bytes: Seq<u8>) -> Result<
        Seq<SequenceView>,
        Seq<u8>,
    > {
        Ok(seq![SequenceView::Tmux(bytes)])
    }

    fn decode_control(byte: u8) -> (code: Option<Sequence>) {
        Some(Sequence::Control(byte))
    }

    fn decode_image(data: Vec<u8>) -> (image: Option<Sequence>) {
        Some(Sequence::Image(data))
    }

    fn decode_command(osc: Vec<Vec<u8>>) -> (command: Sequence) {
        Sequence::Command(osc)
    }

    fn decode_csi(params: Vec<CsiParam>, parameters_truncated: bool, control: char) -> (payloads:
        Vec<Sequence>) {
        let payload = Sequence::Csi { params, parameters_truncated, control };
        let ghost value = payload@;
        let payloads = vec![payload];
        assert(payload_views(payloads@) == seq![value]);
        payloads
    }

    fn decode_esc(intermediate: Option<u8>, control: u8) -> (payload: Sequence) {
        Sequence::Esc { intermediate, control }
    }

    fn start_tmux() -> (tmux: ()) {
        ()
    }

    fn advance_tmux_byte(tmux: &mut (), data: u8) -> (reply: Result<Option<Sequence>, ()>) {
        let bytes = vec![data];
        assert(bytes@ == seq![data]);
        Ok(Some(Sequence::Tmux(bytes)))
    }

    fn advance_tmux_bytes(tmux: &mut (), bytes: &[u8]) -> (reply: Result<
        Vec<Sequence>,
        Vec<u8>,
    >) {
        let mut chunk: Vec<u8> = Vec::new();
        chunk.extend_from_slice(bytes);
        assert(chunk@ == bytes@);
        let events = vec![Sequence::Tmux(chunk)];
        assert(payload_views(events@) == seq![SequenceView::Tmux(bytes@)]);
        Ok(events)
    }
}

/// The value of an optional payload is that of the payload, if there is one,
/// and the values of a list of payloads are those of each of them, in order.
pub proof fn lemma_payload_views<P: View>(option: Option<P>, payloads: Seq<P>)
    ensures
        option is None <==> option_view(option) is None,
        option matches Some(payload) ==> option_view(option) == Some(payload@),
        payload_views(payloads).len() == payloads.len(),
        forall|i: int|
            0 <= i < payloads.len() ==> #[trigger] payload_views(payloads)[i] == payloads[i]@,
{
}

/// The value of an opaque payload is what it holds.
pub proof fn lemma_opaque_view<T>(opaque: Opaque<T>)
    ensures
        opaque@ == opaque.0,
{
}

/// The value of a sequence tells its kind, and has all that it carries.
pub proof fn lemma_sequence_view(sequence: Sequence)
    ensures
        match sequence {
            Sequence::Control(byte) => sequence@ == SequenceView::Control(byte),
            Sequence::Image(data) => sequence@ == SequenceView::Image(data@),
            Sequence::Command(osc) => {
                &&& sequence@ is Command
                &&& sequence@->Command_0.len() == osc@.len()
                &&& forall|i: int|
                    0 <= i < osc@.len() ==> #[trigger] sequence@->Command_0[i] == osc@[i]@
            },
            Sequence::Csi { params, parameters_truncated, control } => sequence@
                == (SequenceView::Csi { params: params@, parameters_truncated, control }),
            Sequence::Esc { intermediate, control } => sequence@ == (SequenceView::Esc {
                intermediate,
                control,
            }),
            Sequence::Tmux(bytes) => sequence@ == SequenceView::Tmux(bytes@),
        },
{
}

/// Sequences that are not decoded are handed on as they came, each as one and
/// none left out.
pub proof fn lemma_undecoded(
    byte: u8,
    data: Seq<u8>,
    osc: Seq<Seq<u8>>,
    params: Seq<CsiParam>,
    parameters_truncated: bool,
    control: char,
    intermediate: Option<u8>,
)
    ensures
        Undecoded::control(byte) == Some(SequenceView::Control(byte)),
        Undecoded::image(data) == Some(SequenceView::Image(data)),
        Undecoded::command(osc) == SequenceView::Command(osc),
        Undecoded::csi(params, parameters_truncated, control).len() == 1,
        Undecoded::csi(params, parameters_truncated, control)[0] == (SequenceView::Csi {
            params,
            parameters_truncated,
            control,
        }),
        Undecoded::esc(intermediate, byte) == (SequenceView::Esc { intermediate, control: byte }),
        Undecoded::tmux_byte_reply((), byte) == Ok::<_, ()>(Some(SequenceView::Tmux(seq![byte]))),
        Undecoded::tmux_bytes_reply((), data) == Ok::<_, Seq<u8>>(
            seq![SequenceView::Tmux(data)],
        ),
{
}

} // verus!
