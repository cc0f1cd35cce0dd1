use escape_parser::action::{Action, DeviceControlMode, EnterDeviceControlMode, ShortDeviceControl};
use escape_parser::decode::{Decoder, Opaque, Sequence, Undecoded};
use escape_parser::Parser;
use vtparse::CsiParam;

type Raw = Action<Sequence>;

fn new_parser() -> Parser<Undecoded> {
    Parser::new()
}

/// The parameters of a control sequence, as they are written.
fn params(text: &str) -> Vec<CsiParam> {
    let mut res = Vec::new();
    let mut number: Option<i64> = None;
    for c in text.chars() {
        match c.to_digit(10) {
            Some(digit) => number = Some(number.unwrap_or(0) * 10 + digit as i64),
            None => {
                if let Some(value) = number.take() {
                    res.push(CsiParam::Integer(value));
                }
                res.push(CsiParam::P(c as u8));
            }
        }
    }
    if let Some(value) = number {
        res.push(CsiParam::Integer(value));
    }
    res
}

fn csi(text: &str, control: char) -> Raw {
    Action::CSI(Sequence::Csi {
        params: params(text),
        parameters_truncated: false,
        control,
    })
}

fn esc(intermediate: Option<u8>, control: u8) -> Raw {
    Action::Esc(Sequence::Esc {
        intermediate,
        control,
    })
}

fn osc(pieces: &[&[u8]]) -> Raw {
    Action::OperatingSystemCommand(Box::new(Sequence::Command(
        pieces.iter().map(|piece| piece.to_vec()).collect(),
    )))
}

fn image(data: &[u8]) -> Raw {
    Action::KittyImage(Sequence::Image(data.to_vec()))
}

fn encode(seq: &[Raw]) -> String {
    let mut res: Vec<u8> = Vec::new();
    for action in seq {
        match action {
            Action::Print(c) => res.extend(c.to_string().bytes()),
            Action::CSI(Sequence::Csi {
                params, control, ..
            }) => {
                res.extend(b"\x1b[");
                for param in params {
                    res.extend(param.to_string().bytes());
                }
                res.extend(control.to_string().bytes());
            }
            Action::Esc(Sequence::Esc {
                intermediate,
                control,
            }) => {
                res.push(0x1b);
                res.extend(intermediate);
                res.push(*control);
            }
            Action::OperatingSystemCommand(command) => match &**command {
                Sequence::Command(pieces) => {
                    res.extend(b"\x1b]");
                    res.extend(pieces.join(&b';'));
                    res.extend(b"\x1b\\");
                }
                other => panic!("{:?}", other),
            },
            Action::XtGetTcap(names) => {
                res.extend(b"\x1bP+q");
                let names: Vec<String> = names.iter().map(hex::encode).collect();
                res.extend(names.join(";").bytes());
            }
            Action::KittyImage(Sequence::Image(data)) => {
                res.extend(b"\x1b_");
                res.extend(data);
            }
            other => panic!("{:?}", other),
        }
    }
    String::from_utf8(res).unwrap()
}

fn round_trip_parse(s: &str) -> Vec<Raw> {
    let mut p = new_parser();
    let actions = p.parse_as_vec(s.as_bytes());
    assert_eq!(s, encode(&actions));
    actions
}

/// Decodes a sequence to the texts by which its meanings are written one by one.
struct Canonical;

fn written(params: &[CsiParam]) -> String {
    params.iter().map(|param| param.to_string()).collect()
}

fn canonical_attribute(attribute: &str) -> &str {
    match attribute {
        "" => "0",
        "4:0" => "24",
        "4:1" => "4",
        "4:2" => "21",
        other => other,
    }
}

impl Decoder for Canonical {
    type Payload = Opaque<String>;
    type Tmux = Opaque<()>;

    fn decode_control(byte: u8) -> Option<Opaque<String>> {
        Some(Opaque((byte as char).to_string()))
    }

    fn decode_image(data: Vec<u8>) -> Option<Opaque<String>> {
        let text = String::from_utf8(data).unwrap();
        let (keys, data) = text.strip_prefix('G')?.split_once(';')?;
        let mut keys: Vec<&str> = keys.split(',').collect();
        keys.sort();
        Some(Opaque(format!("\x1b_G{};{}", keys.join(","), data)))
    }

    fn decode_command(osc: Vec<Vec<u8>>) -> Opaque<String> {
        let text = String::from_utf8(osc.join(&b';')).unwrap();
        Opaque(format!("\x1b]{}\x1b\\", text))
    }

    fn decode_csi(params: Vec<CsiParam>, _truncated: bool, control: char) -> Vec<Opaque<String>> {
        let text = written(&params);
        match (text.strip_prefix('?'), control) {
            (None, 'm') if !text.starts_with('>') => text
                .split(';')
                .map(|attribute| Opaque(format!("\x1b[{}m", canonical_attribute(attribute))))
                .collect(),
            (Some(modes), 'h' | 'l' | 'r' | 's') => modes
                .split(';')
                .map(|mode| Opaque(format!("\x1b[?{}{}", mode, control)))
                .collect(),
            _ => vec![Opaque(format!("\x1b[{}{}", text, control))],
        }
    }

    fn decode_esc(intermediate: Option<u8>, control: u8) -> Opaque<String> {
        let mut text = "\x1b".to_string();
        text.extend(intermediate.map(|byte| byte as char));
        text.push(control as char);
        Opaque(text)
    }

    fn start_tmux() -> Opaque<()> {
        Opaque(())
    }

    fn advance_tmux_byte(_: &mut Opaque<()>, _: u8) -> Result<Option<Opaque<String>>, ()> {
        Err(())
    }

    fn advance_tmux_bytes(
        _: &mut Opaque<()>,
        bytes: &[u8],
    ) -> Result<Vec<Opaque<String>>, Vec<u8>> {
        Err(bytes.to_vec())
    }
}

/// The text of each action.
fn parse_as(s: &str, expected: &str) -> Vec<String> {
    let mut p: Parser<Canonical> = Parser::new();
    let texts: Vec<String> = p
        .parse_as_vec(s.as_bytes())
        .into_iter()
        .map(|action| match action {
            Action::Print(c) => c.to_string(),
            Action::CSI(text) | Action::Esc(text) | Action::KittyImage(text) => text.0,
            Action::OperatingSystemCommand(text) => text.0,
            other => panic!("{:?}", other),
        })
        .collect();
    assert_eq!(expected, texts.concat());
    texts
}

#[test]
fn basic_parse() {
    let mut p = new_parser();
    let actions = p.parse_as_vec(b"hello");
    assert_eq!(
        vec![
            Action::Print('h'),
            Action::Print('e'),
            Action::Print('l'),
            Action::Print('l'),
            Action::Print('o'),
        ],
        actions
    );
    assert_eq!(encode(&actions), "hello");
}

#[test]
fn basic_bold() {
    let mut p = new_parser();
    let actions = p.parse_as_vec(b"\x1b[1mb");
    assert_eq!(vec![csi("1", 'm'), Action::Print('b')], actions);
    assert_eq!(encode(&actions), "\x1b[1mb");
}

#[test]
fn basic_bold_italic() {
    let mut p = new_parser();
    let actions = p.parse_as_vec(b"\x1b[1;3mb");
    assert_eq!(vec![csi("1;3", 'm'), Action::Print('b')], actions);
    assert_eq!(
        parse_as("\x1b[1;3mb", "\x1b[1m\x1b[3mb"),
        vec!["\x1b[1m", "\x1b[3m", "b"]
    );
}

#[test]
fn fancy_underline() {
    let mut p = new_parser();
    let actions = p.parse_as_vec(b"\x1b[4:0;4:1;4:2;4:3;4:4;4:5mb");
    assert_eq!(
        vec![csi("4:0;4:1;4:2;4:3;4:4;4:5", 'm'), Action::Print('b')],
        actions
    );
    assert_eq!(
        parse_as(
            "\x1b[4:0;4:1;4:2;4:3;4:4;4:5mb",
            "\x1b[24m\x1b[4m\x1b[21m\x1b[4:3m\x1b[4:4m\x1b[4:5mb"
        )
        .len(),
        7
    );
}

#[test]
fn true_color() {
    let mut p = new_parser();
    let actions = p.parse_as_vec(b"\x1b[38:2::128:64:192mw");
    assert_eq!(
        vec![csi("38:2::128:64:192", 'm'), Action::Print('w')],
        actions
    );
    assert_eq!(encode(&actions), "\u{1b}[38:2::128:64:192mw");

    let actions = p.parse_as_vec(b"\x1b[38:2:0:255:0mw");
    assert_eq!(
        vec![csi("38:2:0:255:0", 'm'), Action::Print('w')],
        actions
    );
}

#[test]
fn basic_osc() {
    let mut p = new_parser();
    let actions = p.parse_as_vec(b"\x1b]0;hello\x07");
    assert_eq!(vec![osc(&[b"0", b"hello"])], actions);
    assert_eq!(encode(&actions), "\x1b]0;hello\x1b\\");

    let actions = p.parse_as_vec(b"\x1b]532534523;hello\x07");
    assert_eq!(vec![osc(&[b"532534523", b"hello"])], actions);
    assert_eq!(encode(&actions), "\x1b]532534523;hello\x1b\\");
}

#[test]
fn test_emoji_title_osc() {
    let input = "\x1b]0;\u{1f915}\x07";
    let mut p = new_parser();
    let actions = p.parse_as_vec(input.as_bytes());
    assert_eq!(vec![osc(&[b"0", "\u{1f915}".as_bytes()])], actions);
    assert_eq!(encode(&actions), "\x1b]0;\u{1f915}\x1b\\");
}

#[test]
fn basic_esc() {
    let mut p = new_parser();
    let actions = p.parse_as_vec(b"\x1bH");
    assert_eq!(vec![esc(None, b'H')], actions);
    assert_eq!(encode(&actions), "\x1bH");

    let actions = p.parse_as_vec(b"\x1b%H");
    assert_eq!(vec![esc(Some(b'%'), b'H')], actions);
    assert_eq!(encode(&actions), "\x1b%H");
}

#[test]
fn two_intermediates_are_not_passed_on() {
    let mut p = new_parser();
    assert_eq!(p.parse_as_vec(b"\x1b%#H"), vec![esc(None, b'H')]);
}

#[test]
fn soft_reset() {
    let mut p = new_parser();
    let actions = p.parse_as_vec(b"\x1b[!p");
    assert_eq!(vec![csi("!", 'p')], actions);
    assert_eq!(encode(&actions), "\x1b[!p");
}

#[test]
fn xtgettcap() {
    assert_eq!(
        round_trip_parse("\x1bP+q544e\x1b\\"),
        vec![
            Action::XtGetTcap(vec!["TN".to_string()]),
            esc(None, b'\\'),
        ]
    );
}

#[test]
fn xterm_key() {
    assert_eq!(round_trip_parse("\x1b[>4;2m"), vec![csi(">4;2", 'm')]);
}

#[test]
fn window() {
    assert_eq!(round_trip_parse("\x1b[22;2t"), vec![csi("22;2", 't')]);
}

#[test]
fn checksum_area() {
    assert_eq!(
        round_trip_parse("\x1b[1;2;3;4;5;6*y"),
        vec![csi("1;2;3;4;5;6*", 'y')]
    );
}

#[test]
fn dec_private_modes() {
    assert_eq!(
        round_trip_parse("\x1b[?1;1006h"),
        vec![csi("?1;1006", 'h')]
    );
    assert_eq!(
        parse_as("\x1b[?1;1006h", "\x1b[?1h\x1b[?1006h"),
        vec!["\x1b[?1h", "\x1b[?1006h"]
    );
}

#[test]
fn xtsmgraphics() {
    assert_eq!(
        round_trip_parse("\x1b[?1;3;256S"),
        vec![csi("?1;3;256", 'S')]
    );
}

#[test]
fn req_attr() {
    assert_eq!(round_trip_parse("\x1b[=c"), vec![csi("=", 'c')]);
    assert_eq!(round_trip_parse("\x1b[>c"), vec![csi(">", 'c')]);
}

#[test]
fn sgr() {
    assert_eq!(round_trip_parse("\x1b[;4m"), vec![csi(";4", 'm')]);
    assert_eq!(
        parse_as("\x1b[;4m", "\x1b[0m\x1b[4m"),
        vec!["\x1b[0m", "\x1b[4m"]
    );
}

#[test]
fn kitty_img() {
    assert_eq!(
        round_trip_parse("\x1b_Gf=24,s=10,v=20;aGVsbG8=\x1b\\"),
        vec![image(b"Gf=24,s=10,v=20;aGVsbG8="), esc(None, b'\\')]
    );
    assert_eq!(
        round_trip_parse("\x1b_Ga=q,s=1,v=1,i=1;YWJjZA==\x1b\\"),
        vec![image(b"Ga=q,s=1,v=1,i=1;YWJjZA=="), esc(None, b'\\')]
    );
    assert_eq!(
        round_trip_parse("\x1b_Ga=q,t=f,s=1,v=1,i=2;L3Zhci90bXAvdG1wdGYxd3E4Ym4=\x1b\\"),
        vec![
            image(b"Ga=q,t=f,s=1,v=1,i=2;L3Zhci90bXAvdG1wdGYxd3E4Ym4="),
            esc(None, b'\\')
        ]
    );
    parse_as(
        "\x1b_Ga=q,s=1,v=1,i=1;YWJjZA==\x1b\\",
        "\x1b_Ga=q,i=1,s=1,v=1;YWJjZA==\x1b\\",
    );
    parse_as(
        "\x1b_Ga=q,t=f,s=1,v=1,i=2;L3Zhci90bXAvdG1wdGYxd3E4Ym4=\x1b\\",
        "\x1b_Ga=q,i=2,s=1,t=f,v=1;L3Zhci90bXAvdG1wdGYxd3E4Ym4=\x1b\\",
    );
}

#[test]
fn decset() {
    assert_eq!(round_trip_parse("\x1b[?23434h"), vec![csi("?23434", 'h')]);
    assert_eq!(round_trip_parse("\x1b[?1l"), vec![csi("?1", 'l')]);
    assert_eq!(round_trip_parse("\x1b[?25s"), vec![csi("?25", 's')]);
    assert_eq!(round_trip_parse("\x1b[?2004r"), vec![csi("?2004", 'r')]);
    assert_eq!(
        round_trip_parse("\x1b[?12h\x1b[?25h"),
        vec![csi("?12", 'h'), csi("?25", 'h')]
    );
    assert_eq!(
        round_trip_parse("\x1b[?1002h\x1b[?1003h\x1b[?1005h\x1b[?1006h"),
        vec![
            csi("?1002", 'h'),
            csi("?1003", 'h'),
            csi("?1005", 'h'),
            csi("?1006", 'h')
        ]
    );
}

#[test]
fn issue_1291() {
    let mut p = new_parser();
    // Note the empty k=v pair immediately following `File=`
    let actions = p.parse_as_vec(b"\x1b]1337;File=;size=234:aGVsbG8=\x07");
    assert_eq!(
        vec![osc(&[b"1337", b"File=", b"size=234:aGVsbG8="])],
        actions
    );
}

#[test]
fn control_codes() {
    let mut p = new_parser();
    assert_eq!(
        p.parse_as_vec(b"\r\x85"),
        vec![
            Action::Control(Sequence::Control(0x0d)),
            Action::Control(Sequence::Control(0x85)),
        ]
    );
}

#[test]
fn status_query() {
    let mut p = new_parser();
    assert_eq!(
        p.parse_as_vec(b"\x1bP1;2$qr\"p\x1b\\"),
        vec![
            Action::DeviceControl(DeviceControlMode::ShortDeviceControl(Box::new(
                ShortDeviceControl {
                    params: vec![1, 2, 0],
                    intermediates: vec![b'$'],
                    byte: b'q',
                    data: b"r\"p".to_vec(),
                }
            ))),
            esc(None, b'\\'),
        ]
    );
}

#[test]
fn other_control_strings_come_byte_by_byte() {
    let mut p = new_parser();
    assert_eq!(
        p.parse_as_vec(b"\x1bP7!zab\x1b\\"),
        vec![
            Action::DeviceControl(DeviceControlMode::Enter(Box::new(EnterDeviceControlMode {
                byte: b'z',
                params: vec![7],
                intermediates: vec![b'!'],
                ignored_extra_intermediates: false,
            }))),
            Action::DeviceControl(DeviceControlMode::Data(b'a')),
            Action::DeviceControl(DeviceControlMode::Data(b'b')),
            Action::DeviceControl(DeviceControlMode::Exit),
            esc(None, b'\\'),
        ]
    );
}

#[test]
fn too_many_intermediates_make_no_query() {
    let mut p = new_parser();
    let actions = p.parse_as_vec(b"\x1bP$$$q");
    assert_eq!(
        actions,
        vec![Action::DeviceControl(DeviceControlMode::Enter(Box::new(
            EnterDeviceControlMode {
                byte: b'q',
                params: vec![],
                intermediates: vec![b'$', b'$'],
                ignored_extra_intermediates: true,
            }
        )))]
    );
}

#[test]
fn chunks_may_be_cut_anywhere() {
    let input = b"a\x1b[1;31mb\x1bPq#1~-\x1b\\\x1b]0;t\xc3\xa9\x07\x1bP+q544e;zz\x1b\\\xe2\x82\xac\r";
    let whole = new_parser().parse_as_vec(input);
    for cut in 0..=input.len() {
        let mut p = new_parser();
        let mut actions = p.parse_as_vec(&input[..cut]);
        p.parse(&input[cut..], &mut actions);
        assert_eq!(actions, whole);
    }
    let mut p = Parser::<Undecoded>::default();
    let mut actions = Vec::new();
    for byte in input {
        p.parse(&[*byte], &mut actions);
    }
    assert_eq!(actions, whole);
}

#[test]
fn parse_adds_to_what_is_there() {
    let mut p = new_parser();
    let mut actions = vec![Action::Print('x')];
    p.parse(b"y", &mut actions);
    assert_eq!(actions, vec![Action::Print('x'), Action::Print('y')]);
}

#[test]
fn first_action_and_its_length() {
    let mut p = new_parser();
    assert_eq!(p.parse_first(b"\x1b[1mbold"), Some((csi("1", 'm'), 4)));
    assert_eq!(p.parse_first(b"bold"), Some((Action::Print('b'), 1)));
    assert_eq!(p.parse_first(b""), None);
    assert_eq!(p.parse_first(b"\x1b[3"), None);
    // The sequence that was begun goes on.
    assert_eq!(p.parse_first(b"4mx"), Some((csi("34", 'm'), 2)));
}

#[test]
fn first_actions_of_one_byte() {
    // CAN ends a control string and is a control code too.
    let input = b"\x1bP1$zab\x18c";
    let mut p = new_parser();
    let (entered, length) = p.parse_first_as_vec(input).unwrap();
    assert_eq!((entered.len(), length), (1, 5));
    assert_eq!(
        p.parse_first_as_vec(&input[5..]),
        Some((
            vec![Action::DeviceControl(DeviceControlMode::Data(b'a'))],
            1
        ))
    );
    assert_eq!(
        p.parse_first_as_vec(&input[6..]),
        Some((
            vec![Action::DeviceControl(DeviceControlMode::Data(b'b'))],
            1
        ))
    );
    assert_eq!(
        p.parse_first_as_vec(&input[7..]),
        Some((
            vec![
                Action::DeviceControl(DeviceControlMode::Exit),
                Action::Control(Sequence::Control(0x18)),
            ],
            1
        ))
    );

    let mut p = new_parser();
    assert_eq!(p.parse_first_as_vec(b"\x1b[1;2"), None);
    p.parse_as_vec(b"\x18\x1bP1$z");
    assert_eq!(
        p.parse_first(b"\x18c"),
        Some((Action::DeviceControl(DeviceControlMode::Exit), 1))
    );
    assert_eq!(p.parse_as_vec(b"c"), vec![Action::Print('c')]);
}

#[test]
fn first_and_rest_make_up_the_whole() {
    let input: &[u8] = b"\x1b[1;3mb\x1b]0;t\x07\x1bPq~\x1b\\z";
    let whole = new_parser().parse_as_vec(input);
    let mut p = new_parser();
    let mut pieces = Vec::new();
    let mut rest = input;
    while let Some((actions, length)) = p.parse_first_as_vec(rest) {
        assert!(!actions.is_empty());
        pieces.extend(actions);
        rest = &rest[length..];
    }
    assert_eq!(pieces, whole);
    assert_eq!(
        new_parser().parse_first(input).map(|(action, _)| action),
        Some(whole[0].clone())
    );
}

#[test]
fn a_new_control_string_drops_the_old() {
    let mut p = new_parser();
    assert_eq!(p.parse_as_vec(b"\x1bPq~~"), vec![]);
    // ESC ends the first string, and a new one begins.
    let actions = p.parse_as_vec(b"\x1bP+q41\x1b\\");
    assert_eq!(actions.len(), 3);
    assert!(matches!(actions[0], Action::Sixel(_)));
    assert_eq!(actions[1], Action::XtGetTcap(vec!["A".to_string()]));
}

#[test]
fn tmux_bytes_are_handed_on() {
    let mut p = new_parser();
    let actions = p.parse_as_vec(b"\x1bP1000pab");
    assert_eq!(actions.len(), 3);
    assert!(matches!(
        actions[0],
        Action::DeviceControl(DeviceControlMode::Enter(_))
    ));
    let tmux = |bytes: &[u8]| {
        Action::DeviceControl(DeviceControlMode::TmuxEvents(Box::new(vec![
            Sequence::Tmux(bytes.to_vec()),
        ])))
    };
    assert_eq!(actions[1..], [tmux(b"a"), tmux(b"b")]);
    assert_eq!(p.parse_as_vec(b"%begin\x1b\\"), vec![tmux(b"%begin\x1b\\")]);
}
