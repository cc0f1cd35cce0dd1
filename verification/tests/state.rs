use escape_parser::action::{Action, DeviceControlMode, SixelData};
use escape_parser::decode::{Sequence, Undecoded};
use escape_parser::machine::VtEvent;
use escape_parser::state::{is_short_dcs, ParseState};
use vtparse::CsiParam;

fn hook(byte: u8, params: &[i64], intermediates: &[u8]) -> VtEvent {
    VtEvent::DcsHook {
        params: params.to_vec(),
        intermediates: intermediates.to_vec(),
        ignored_excess_intermediates: false,
        byte,
    }
}

fn perform(state: &mut ParseState<Undecoded>, events: Vec<VtEvent>) -> Vec<Action<Sequence>> {
    let mut actions = Vec::new();
    for event in events {
        state.perform(event, &mut actions);
    }
    actions
}

#[test]
fn only_status_queries_are_short() {
    assert!(is_short_dcs(b"$", b'q'));
    assert!(!is_short_dcs(b"$", b'p'));
    assert!(!is_short_dcs(b"+", b'q'));
    assert!(!is_short_dcs(b"", b'q'));
    assert!(!is_short_dcs(b"$$", b'q'));
}

#[test]
fn a_start_drops_what_was_collected() {
    let mut state = ParseState::new();
    let actions = perform(
        &mut state,
        vec![
            hook(b'q', &[], b""),
            VtEvent::DcsPut(b'~'),
            hook(b'q', &[], b"+"),
            VtEvent::DcsPut(b'4'),
            hook(b'q', &[], b"$"),
            VtEvent::DcsPut(b'm'),
            hook(b'q', &[], b""),
            VtEvent::DcsPut(b'?'),
            VtEvent::DcsUnhook,
            VtEvent::DcsUnhook,
        ],
    );
    assert_eq!(actions.len(), 2);
    match &actions[0] {
        Action::Sixel(sixel) => assert_eq!(sixel.data, vec![SixelData::Data(0)]),
        other => panic!("{:?}", other),
    }
    assert_eq!(actions[1], Action::DeviceControl(DeviceControlMode::Exit));
}

#[test]
fn other_events_leave_what_is_collected() {
    let mut state = ParseState::new();
    let mut actions = perform(
        &mut state,
        vec![
            hook(b'q', &[], b"+"),
            VtEvent::DcsPut(b'4'),
            VtEvent::Print('x'),
            VtEvent::ExecuteC0orC1(7),
            VtEvent::EscDispatch {
                intermediates: vec![],
                byte: b'7',
            },
            VtEvent::CsiDispatch {
                params: vec![CsiParam::Integer(1)],
                parameters_truncated: true,
                byte: b'm',
            },
            VtEvent::OscDispatch(vec![b"0".to_vec()]),
            VtEvent::ApcDispatch(b"G".to_vec()),
            VtEvent::DcsPut(b'1'),
            VtEvent::DcsUnhook,
        ],
    );
    assert_eq!(
        actions.pop(),
        Some(Action::XtGetTcap(vec!["A".to_string()]))
    );
    assert_eq!(
        actions,
        vec![
            Action::Print('x'),
            Action::Control(Sequence::Control(7)),
            Action::Esc(Sequence::Esc {
                intermediate: None,
                control: b'7'
            }),
            Action::CSI(Sequence::Csi {
                params: vec![CsiParam::Integer(1)],
                parameters_truncated: true,
                control: 'm'
            }),
            Action::OperatingSystemCommand(Box::new(Sequence::Command(vec![b"0".to_vec()]))),
            Action::KittyImage(Sequence::Image(b"G".to_vec())),
        ]
    );
}

#[test]
fn excess_intermediates_matter_to_images_and_status_queries() {
    let ignored = |intermediates: &[u8]| VtEvent::DcsHook {
        params: vec![],
        intermediates: intermediates.to_vec(),
        ignored_excess_intermediates: true,
        byte: b'q',
    };
    let mut state = ParseState::new();
    assert_eq!(perform(&mut state, vec![ignored(b"")]).len(), 1);
    assert_eq!(perform(&mut state, vec![ignored(b"$")]).len(), 1);
    assert_eq!(perform(&mut state, vec![ignored(b"+")]).len(), 0);
}

#[test]
fn one_control_string_enters_the_tmux_mode() {
    let mut state: ParseState<Undecoded> = ParseState::new();
    for (byte, params) in [
        (b'p', &[][..]),
        (b'p', &[1001]),
        (b'p', &[1000, 0]),
        (b'x', &[1000]),
    ] {
        assert_eq!(perform(&mut state, vec![hook(byte, params, b"")]).len(), 1);
        assert!(!state.is_tmux_mode());
    }
    assert_eq!(perform(&mut state, vec![hook(b'p', &[1000], b"")]).len(), 1);
    assert!(state.is_tmux_mode());
    let mut actions = Vec::new();
    assert_eq!(state.tmux_bytes(b"%exit", &mut actions), None);
    assert_eq!(
        actions,
        vec![Action::DeviceControl(DeviceControlMode::TmuxEvents(
            Box::new(vec![Sequence::Tmux(b"%exit".to_vec())])
        ))]
    );
    assert!(state.is_tmux_mode());
}
