use escape_parser::action::{Action, DeviceControlMode};
use escape_parser::decode::{Decoder, Opaque};
use escape_parser::Parser;
use vtparse::CsiParam;

/// What the sequences of these tests mean.
#[derive(Debug, Clone, PartialEq)]
enum Meaning {
    LineFeed,
    Picture(usize),
    Title(String),
    Attribute(i64),
    Save,
    Line(String),
}

/// Splits the bytes of the control mode into lines, up to a `!`.
struct Lines(String);

struct Small;

impl Decoder for Small {
    type Payload = Opaque<Meaning>;
    type Tmux = Opaque<Lines>;

    fn decode_control(byte: u8) -> Option<Opaque<Meaning>> {
        if byte == b'\n' {
            Some(Opaque(Meaning::LineFeed))
        } else {
            None
        }
    }

    fn decode_image(data: Vec<u8>) -> Option<Opaque<Meaning>> {
        if data.first() == Some(&b'G') {
            Some(Opaque(Meaning::Picture(data.len())))
        } else {
            None
        }
    }

    fn decode_command(osc: Vec<Vec<u8>>) -> Opaque<Meaning> {
        Opaque(Meaning::Title(
            String::from_utf8(osc.last().unwrap().clone()).unwrap(),
        ))
    }

    fn decode_csi(params: Vec<CsiParam>, _truncated: bool, control: char) -> Vec<Opaque<Meaning>> {
        assert_eq!(control, 'm');
        params
            .iter()
            .filter_map(|param| param.as_integer())
            .map(|value| Opaque(Meaning::Attribute(value)))
            .collect()
    }

    fn decode_esc(intermediate: Option<u8>, _control: u8) -> Opaque<Meaning> {
        assert_eq!(intermediate, None);
        Opaque(Meaning::Save)
    }

    fn start_tmux() -> Opaque<Lines> {
        Opaque(Lines(String::new()))
    }

    fn advance_tmux_byte(
        tmux: &mut Opaque<Lines>,
        data: u8,
    ) -> Result<Option<Opaque<Meaning>>, ()> {
        match data {
            b'!' => Err(()),
            b'\n' => {
                let line = std::mem::take(&mut tmux.0 .0);
                Ok(Some(Opaque(Meaning::Line(line))))
            }
            _ => {
                tmux.0 .0.push(data as char);
                Ok(None)
            }
        }
    }

    fn advance_tmux_bytes(
        tmux: &mut Opaque<Lines>,
        bytes: &[u8],
    ) -> Result<Vec<Opaque<Meaning>>, Vec<u8>> {
        let mut events = Vec::new();
        for (i, byte) in bytes.iter().enumerate() {
            match Self::advance_tmux_byte(tmux, *byte) {
                Ok(event) => events.extend(event),
                Err(()) => return Err(bytes[i + 1..].to_vec()),
            }
        }
        Ok(events)
    }
}

fn tmux(lines: &[&str]) -> Action<Opaque<Meaning>> {
    Action::DeviceControl(DeviceControlMode::TmuxEvents(Box::new(
        lines
            .iter()
            .map(|line| Opaque(Meaning::Line(line.to_string())))
            .collect(),
    )))
}

#[test]
fn what_means_nothing_is_not_reported() {
    let mut p: Parser<Small> = Parser::new();
    assert_eq!(
        p.parse_as_vec(b"\r\n\x1b_none\x1b7\x1b_Gone\x1b8"),
        vec![
            Action::Control(Opaque(Meaning::LineFeed)),
            Action::Esc(Opaque(Meaning::Save)),
            Action::KittyImage(Opaque(Meaning::Picture(4))),
            Action::Esc(Opaque(Meaning::Save)),
        ]
    );
}

#[test]
fn one_sequence_may_mean_many_things() {
    let mut p: Parser<Small> = Parser::new();
    assert_eq!(
        p.parse_as_vec(b"\x1b[1;3mb\x1b[m\x1b]2;t\x07"),
        vec![
            Action::CSI(Opaque(Meaning::Attribute(1))),
            Action::CSI(Opaque(Meaning::Attribute(3))),
            Action::Print('b'),
            Action::OperatingSystemCommand(Box::new(Opaque(Meaning::Title("t".to_string())))),
        ]
    );
}

#[test]
fn the_first_action_is_one_that_means_something() {
    let mut p: Parser<Small> = Parser::new();
    let input = b"\r\x1b_none\x1b[1;3mb";
    assert_eq!(
        p.parse_first(input),
        Some((Action::CSI(Opaque(Meaning::Attribute(1))), 13))
    );
    let mut p: Parser<Small> = Parser::new();
    assert_eq!(
        p.parse_first_as_vec(input),
        Some((
            vec![
                Action::CSI(Opaque(Meaning::Attribute(1))),
                Action::CSI(Opaque(Meaning::Attribute(3)))
            ],
            13
        ))
    );
    assert_eq!(p.parse_first(b"\r\r"), None);
}

#[test]
fn tmux_events_come_with_the_bytes_that_complete_them() {
    let mut p: Parser<Small> = Parser::new();
    let actions = p.parse_as_vec(b"\x1bP1000p%begin\n%e");
    assert_eq!(actions.len(), 2);
    assert_eq!(actions[1], tmux(&["%begin"]));
    assert_eq!(p.parse_as_vec(b"nd\na\nb"), vec![tmux(&["%end", "a"])]);
    assert_eq!(p.parse_as_vec(b""), vec![tmux(&[])]);
}

#[test]
fn an_error_ends_the_tmux_mode_at_once() {
    let mut p: Parser<Small> = Parser::new();
    let actions = p.parse_as_vec(b"\x1bP1000pa!b");
    assert_eq!(
        actions[1..],
        [Action::DeviceControl(DeviceControlMode::Data(b'b'))]
    );
    assert_eq!(
        p.parse_as_vec(b"c"),
        vec![Action::DeviceControl(DeviceControlMode::Data(b'c'))]
    );
}

#[test]
fn what_is_left_of_a_chunk_is_parsed_without_the_tmux_mode() {
    let mut p: Parser<Small> = Parser::new();
    p.parse_as_vec(b"\x1bP1000p");
    assert_eq!(
        p.parse_as_vec(b"a\n!bc\x1b7d"),
        vec![
            Action::DeviceControl(DeviceControlMode::Data(b'b')),
            Action::DeviceControl(DeviceControlMode::Data(b'c')),
            Action::DeviceControl(DeviceControlMode::Exit),
            Action::Esc(Opaque(Meaning::Save)),
            Action::Print('d'),
        ]
    );
}

#[test]
fn the_end_of_its_string_does_not_end_the_tmux_mode() {
    let mut p: Parser<Small> = Parser::new();
    let actions = p.parse_as_vec(b"\x1bP1000p\x1b\\");
    assert_eq!(
        actions[1..],
        [
            Action::DeviceControl(DeviceControlMode::Exit),
            Action::Esc(Opaque(Meaning::Save)),
        ]
    );
    assert_eq!(p.parse_as_vec(b"x\n"), vec![tmux(&["x"])]);
}

#[test]
fn collected_strings_come_before_the_tmux_mode() {
    let mut p: Parser<Small> = Parser::new();
    let actions = p.parse_as_vec(b"\x1bP1000p\x1bP+q4a\x1b\\\x1bPzx\n");
    assert_eq!(
        actions[1..],
        [
            Action::DeviceControl(DeviceControlMode::Exit),
            Action::XtGetTcap(vec!["J".to_string()]),
            Action::Esc(Opaque(Meaning::Save)),
            actions[4].clone(),
            tmux(&["x"]),
        ]
    );
}
