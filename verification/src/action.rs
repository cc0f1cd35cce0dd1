//! What the parser recognizes.

#[allow(unused_imports)]
use crate::decode::payload_views;
#[allow(unused_imports)]
use crate::tcap::string_views;
use vstd::prelude::*;

verus! {

/// A color with eight bits for each of its three components.
#[derive(Debug, Clone, Copy, PartialEq, Eq)]
pub struct RgbColor {
    pub red: u8,
    pub green: u8,
    pub blue: u8,
}

impl RgbColor {
    /// The color with these components.
    pub fn new_8bpc(red: u8, green: u8, blue: u8) -> (color: Self)
        ensures
            color == (RgbColor { red, green, blue }),
    {
        RgbColor { red, green, blue }
    }
}

/// One instruction of a sixel image.
#[derive(Debug, Clone, Copy, PartialEq, Eq)]
pub enum SixelData {
    /// Six pixels, one above the other.
    Data(u8),
    /// Six pixels, repeated to the right.
    Repeat { repeat_count: u32, data: u8 },
    /// Gives an entry of the color map a color by its components.
    DefineColorMapRGB { color_number: u16, rgb: RgbColor },
    /// Gives an entry of the color map a color by hue, lightness and
    /// saturation.
    DefineColorMapHSL { color_number: u16, hue_angle: u16, lightness: u8, saturation: u8 },
    /// Selects the color of the pixels that follow.
    SelectColorMapEntry(u16),
    /// Goes back to the left edge of the image.
    CarriageReturn,
    /// Goes to the left edge of the image, six pixels down.
    NewLine,
}

/// A sixel image.
#[derive(Debug, Clone, PartialEq, Eq)]
pub struct Sixel {
    /// The numerator of the aspect ratio of a pixel.
    pub pan: i64,
    /// The denominator of the aspect ratio of a pixel.
    pub pad: i64,
    /// How wide the image is.
    pub pixel_width: Option<u32>,
    /// How high the image is.
    pub pixel_height: Option<u32>,
    /// Whether pixels that are not set keep their color.
    pub background_is_transparent: bool,
    /// The space between pixels.
    pub horizontal_grid_size: Option<i64>,
    /// The instructions that draw the image.
    pub data: Vec<SixelData>,
}

/// The mathematical value of a [`Sixel`].
#[verifier::ext_equal]
pub ghost struct SixelView {
    pub pan: i64,
    pub pad: i64,
    pub pixel_width: Option<u32>,
    pub pixel_height: Option<u32>,
    pub background_is_transparent: bool,
    pub horizontal_grid_size: Option<i64>,
    pub data: Seq<SixelData>,
}

impl View for Sixel {
    type V = SixelView;

    open spec fn view(&self) -> SixelView {
        SixelView {
            pan: self.pan,
            pad: self.pad,
            pixel_width: self.pixel_width,
            pixel_height: self.pixel_height,
            background_is_transparent: self.background_is_transparent,
            horizontal_grid_size: self.horizontal_grid_size,
            data: self.data@,
        }
    }
}

/// A device control string that is reported as a whole.
#[derive(Debug, Clone, PartialEq, Eq)]
pub struct ShortDeviceControl {
    /// The parameters.
    pub params: Vec<i64>,
    /// The intermediate bytes.
    pub intermediates: Vec<u8>,
    /// The final byte.
    pub byte: u8,
    /// The data.
    pub data: Vec<u8>,
}

/// The mathematical value of a [`ShortDeviceControl`].
#[verifier::ext_equal]
pub ghost struct ShortDeviceControlView {
    pub params: Seq<i64>,
    pub intermediates: Seq<u8>,
    pub byte: u8,
    pub data: Seq<u8>,
}

impl View for ShortDeviceControl {
    type V = ShortDeviceControlView;

    open spec fn view(&self) -> ShortDeviceControlView {
        ShortDeviceControlView {
            params: self.params@,
            intermediates: self.intermediates@,
            byte: self.byte,
            data: self.data@,
        }
    }
}

/// The start of a device control string that is reported byte by byte.
#[derive(Debug, Clone, PartialEq, Eq)]
pub struct EnterDeviceControlMode {
    /// The final byte.
    pub byte: u8,
    /// The parameters.
    pub params: Vec<i64>,
    /// The intermediate bytes.
    pub intermediates: Vec<u8>,
    /// Whether there were more intermediate bytes than are kept.
    pub ignored_extra_intermediates: bool,
}

/// The mathematical value of an [`EnterDeviceControlMode`].
#[verifier::ext_equal]
pub ghost struct EnterView {
    pub byte: u8,
    pub params: Seq<i64>,
    pub intermediates: Seq<u8>,
    pub ignored_extra_intermediates: bool,
}

impl View for EnterDeviceControlMode {
    type V = EnterView;

    open spec fn view(&self) -> EnterView {
        EnterView {
            byte: self.byte,
            params: self.params@,
            intermediates: self.intermediates@,
            ignored_extra_intermediates: self.ignored_extra_intermediates,
        }
    }
}

/// A device control string, or a part of one.
#[derive(Debug, Clone, PartialEq)]
pub enum DeviceControlMode<P> {
    /// The start of a device control string.
    Enter(Box<EnterDeviceControlMode>),
    /// The end of a device control string.
    Exit,
    /// One byte of the data of a device control string.
    Data(u8),
    /// A whole device control string.
    ShortDeviceControl(Box<ShortDeviceControl>),
    /// Events of the tmux control mode.
    TmuxEvents(Box<Vec<P>>),
}

/// The mathematical value of a [`DeviceControlMode`].
#[verifier::ext_equal]
pub ghost enum DeviceControlView<M> {
    Enter(EnterView),
    Exit,
    Data(u8),
    ShortDeviceControl(ShortDeviceControlView),
    TmuxEvents(Seq<M>),
}

impl<P: View> View for DeviceControlMode<P> {
    type V = DeviceControlView<P::V>;

    open spec fn view(&self) -> DeviceControlView<P::V> {
        match self {
            DeviceControlMode::Enter(enter) => DeviceControlView::Enter((**enter)@),
            DeviceControlMode::Exit => DeviceControlView::Exit,
            DeviceControlMode::Data(data) => DeviceControlView::Data(*data),
            DeviceControlMode::ShortDeviceControl(short) => DeviceControlView::ShortDeviceControl(
                (**short)@,
            ),
            DeviceControlMode::TmuxEvents(events) => DeviceControlView::TmuxEvents(
                payload_views((**events)@),
            ),
        }
    }
}

/// What the parser recognizes. `P` is what a decoder makes of the sequences
/// that have a meaning of their own.
#[derive(Debug, Clone, PartialEq)]
pub enum Action<P> {
    /// A character to show.
    Print(char),
    /// A control code.
    Control(P),
    /// A device control string, or a part of one.
    DeviceControl(DeviceControlMode<P>),
    /// An operating system command.
    OperatingSystemCommand(Box<P>),
    /// A control sequence.
    CSI(P),
    /// An escape sequence.
    Esc(P),
    /// A sixel image.
    Sixel(Box<Sixel>),
    /// A query for terminal capabilities, by their names.
    XtGetTcap(Vec<String>),
    /// An image in the format of the kitty terminal.
    KittyImage(P),
}

/// The mathematical value of an [`Action`].
#[verifier::ext_equal]
pub ghost enum ActionView<M> {
    Print(char),
    Control(M),
    DeviceControl(DeviceControlView<M>),
    OperatingSystemCommand(M),
    CSI(M),
    Esc(M),
    Sixel(SixelView),
    XtGetTcap(Seq<Seq<char>>),
    KittyImage(M),
}

impl<P: View> View for Action<P> {
    type V = ActionView<P::V>;

    open spec fn view(&self) -> ActionView<P::V> {
        match self {
            Action::Print(c) => ActionView::Print(*c),
            Action::Control(code) => ActionView::Control(code@),
            Action::DeviceControl(mode) => ActionView::DeviceControl(mode@),
            Action::OperatingSystemCommand(command) => ActionView::OperatingSystemCommand(
                (**command)@,
            ),
            Action::CSI(csi) => ActionView::CSI(csi@),
            Action::Esc(esc) => ActionView::Esc(esc@),
            Action::Sixel(sixel) => ActionView::Sixel((**sixel)@),
            Action::XtGetTcap(names) => ActionView::XtGetTcap(string_views(names@)),
            Action::KittyImage(image) => ActionView::KittyImage(image@),
        }
    }
}

/// The values of a list of actions.
pub open spec fn action_views<P: View>(actions: Seq<Action<P>>) -> Seq<ActionView<P::V>> {
    actions.map_values(|action: Action<P>| action@)
}

/// The value of an image has all of its parts.
pub proof fn lemma_sixel_view(sixel: Sixel)
    ensures
        sixel@.pan == sixel.pan,
        sixel@.pad == sixel.pad,
        sixel@.pixel_width == sixel.pixel_width,
        sixel@.pixel_height == sixel.pixel_height,
        sixel@.background_is_transparent == sixel.background_is_transparent,
        sixel@.horizontal_grid_size == sixel.horizontal_grid_size,
        sixel@.data == sixel.data@,
{
}

/// The values of a device control string and of the start of one have all of
/// their parts.
pub proof fn lemma_device_control_parts(
    short: ShortDeviceControl,
    enter: EnterDeviceControlMode,
)
    ensures
        short@.params == short.params@,
        short@.intermediates == short.intermediates@,
        short@.byte == short.byte,
        short@.data == short.data@,
        enter@.byte == enter.byte,
        enter@.params == enter.params@,
        enter@.intermediates == enter.intermediates@,
        enter@.ignored_extra_intermediates == enter.ignored_extra_intermediates,
{
}

/// The value of what is reported of a device control string tells its kind, and
/// has all that it carries.
pub proof fn lemma_device_control_view<P: View>(mode: DeviceControlMode<P>)
    ensures
        match mode {
            DeviceControlMode::Enter(enter) => mode@ == DeviceControlView::<P::V>::Enter(
                (*enter)@,
            ),
            DeviceControlMode::Exit => mode@ == DeviceControlView::<P::V>::Exit,
            DeviceControlMode::Data(data) => mode@ == DeviceControlView::<P::V>::Data(data),
            DeviceControlMode::ShortDeviceControl(short) => mode@
                == DeviceControlView::<P::V>::ShortDeviceControl((*short)@),
            DeviceControlMode::TmuxEvents(events) => {
                &&& mode@ is TmuxEvents
                &&& mode@->TmuxEvents_0.len() == (*events)@.len()
                &&& forall|i: int|
                    0 <= i < (*events)@.len() ==> #[trigger] mode@->TmuxEvents_0[i]
                        == (*events)@[i]@
            },
        },
{
}

/// The value of an action tells its kind, and has all that it carries.
pub proof fn lemma_action_view<P: View>(action: Action<P>)
    ensures
        match action {
            Action::Print(c) => action@ == ActionView::<P::V>::Print(c),
            Action::Control(code) => action@ == ActionView::<P::V>::Control(code@),
            Action::DeviceControl(mode) => action@ == ActionView::<P::V>::DeviceControl(mode@),
            Action::OperatingSystemCommand(command) => action@
                == ActionView::<P::V>::OperatingSystemCommand((*command)@),
            Action::CSI(csi) => action@ == ActionView::<P::V>::CSI(csi@),
            Action::Esc(esc) => action@ == ActionView::<P::V>::Esc(esc@),
            Action::Sixel(sixel) => action@ == ActionView::<P::V>::Sixel((*sixel)@),
            Action::XtGetTcap(names) => {
                &&& action@ is XtGetTcap
                &&& action@->XtGetTcap_0.len() == names@.len()
                &&& forall|i: int|
                    0 <= i < names@.len() ==> #[trigger] action@->XtGetTcap_0[i] == names@[i]@
            },
            Action::KittyImage(image) => action@ == ActionView::<P::V>::KittyImage(image@),
        },
{
}

/// The values of a list of actions are those of each of them, in order.
pub proof fn lemma_action_views<P: View>(actions: Seq<Action<P>>)
    ensures
        action_views(actions).len() == actions.len(),
        forall|i: int|
            0 <= i < actions.len() ==> #[trigger] action_views(actions)[i] == actions[i]@,
{
}

} // verus!
