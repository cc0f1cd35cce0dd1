use escape_parser::action::SixelData::{
    CarriageReturn, Data, DefineColorMapRGB, NewLine, Repeat, SelectColorMapEntry,
};
use escape_parser::action::{Action, RgbColor, Sixel, SixelData};
use escape_parser::decode::{Sequence, Undecoded};
use escape_parser::sixel::SixelBuilder;
use escape_parser::Parser;
use regex::bytes::Regex;

fn read(params: &[i64], data: &[u8]) -> Sixel {
    let mut builder = SixelBuilder::new(params);
    for byte in data {
        builder.push(*byte);
    }
    builder.finish();
    builder.into_sixel()
}

fn blank() -> Sixel {
    Sixel {
        pan: 2,
        pad: 1,
        pixel_width: None,
        pixel_height: None,
        background_is_transparent: false,
        horizontal_grid_size: None,
        data: vec![],
    }
}

fn string_terminator() -> Action<Sequence> {
    Action::Esc(Sequence::Esc {
        intermediate: None,
        control: b'\\',
    })
}

fn to_percent(component: u8) -> u32 {
    (component as f32 / 255.0 * 100.0).round() as u32
}

fn encode(action: &Action<Sequence>) -> String {
    let sixel = match action {
        Action::Sixel(sixel) => sixel,
        other => panic!("{:?}", other),
    };
    let ratio = match sixel.pan {
        5 => 2,
        3 => 3,
        1 => 7,
        _ => 0,
    };
    let background = if sixel.background_is_transparent { 1 } else { 0 };
    let mut res = format!("\x1bP{};{}", ratio, background);
    if let Some(size) = sixel.horizontal_grid_size {
        res.push_str(&format!(";{}", size));
    }
    res.push('q');
    for data in &sixel.data {
        match data {
            SixelData::Data(value) => res.push((value + 0x3f) as char),
            SixelData::Repeat { repeat_count, data } => {
                res.push_str(&format!("!{}{}", repeat_count, (data + 0x3f) as char))
            }
            SixelData::DefineColorMapRGB { color_number, rgb } => res.push_str(&format!(
                "#{};2;{};{};{}",
                color_number,
                to_percent(rgb.red),
                to_percent(rgb.green),
                to_percent(rgb.blue)
            )),
            SixelData::SelectColorMapEntry(number) => res.push_str(&format!("#{}", number)),
            SixelData::CarriageReturn => res.push('$'),
            SixelData::NewLine => res.push('-'),
            other => panic!("{:?}", other),
        }
    }
    res
}

#[test]
fn sixel() {
    let mut p: Parser<Undecoded> = Parser::new();
    let actions = p.parse_as_vec(b"\x1bP1;2;3;q@\x1b\\");
    assert_eq!(
        vec![
            Action::Sixel(Box::new(Sixel {
                pan: 2,
                pad: 1,
                pixel_width: None,
                pixel_height: None,
                background_is_transparent: false,
                horizontal_grid_size: Some(3),
                data: vec![SixelData::Data(1)]
            })),
            string_terminator(),
        ],
        actions
    );
    assert_eq!(encode(&actions[0]), "\x1bP0;0;3q@");

    // This is the "HI" example from wikipedia
    let mut p: Parser<Undecoded> = Parser::new();
    let actions = p.parse_as_vec(
        b"\x1bPq\
        #0;2;0;0;0#1;2;100;100;0#2;2;0;100;0\
        #1~~@@vv@@~~@@~~$\
        #2??}}GG}}??}}??-\
        #1!14@\
        \x1b\\",
    );
    assert_eq!(
        encode(&actions[0]),
        "\x1bP0;0q\
        #0;2;0;0;0#1;2;100;100;0#2;2;0;100;0\
        #1~~@@vv@@~~@@~~$\
        #2??}}GG}}??}}??-\
        #1!14@"
    );

    assert_eq!(
        vec![
            Action::Sixel(Box::new(Sixel {
                pan: 2,
                pad: 1,
                pixel_width: None,
                pixel_height: None,
                background_is_transparent: false,
                horizontal_grid_size: None,
                data: vec![
                    DefineColorMapRGB {
                        color_number: 0,
                        rgb: RgbColor::new_8bpc(0, 0, 0)
                    },
                    DefineColorMapRGB {
                        color_number: 1,
                        rgb: RgbColor::new_8bpc(255, 255, 0)
                    },
                    DefineColorMapRGB {
                        color_number: 2,
                        rgb: RgbColor::new_8bpc(0, 255, 0)
                    },
                    SelectColorMapEntry(1),
                    Data(63),
                    Data(63),
                    Data(1),
                    Data(1),
                    Data(55),
                    Data(55),
                    Data(1),
                    Data(1),
                    Data(63),
                    Data(63),
                    Data(1),
                    Data(1),
                    Data(63),
                    Data(63),
                    CarriageReturn,
                    SelectColorMapEntry(2),
                    Data(0),
                    Data(0),
                    Data(62),
                    Data(62),
                    Data(8),
                    Data(8),
                    Data(62),
                    Data(62),
                    Data(0),
                    Data(0),
                    Data(62),
                    Data(62),
                    Data(0),
                    Data(0),
                    NewLine,
                    SelectColorMapEntry(1),
                    Repeat {
                        repeat_count: 14,
                        data: 1
                    }
                ]
            })),
            string_terminator(),
        ],
        actions
    );
}

#[test]
fn aspect_ratio_of_the_parameters() {
    let ratios = [2, 2, 5, 3, 3, 2, 2, 1, 1, 1, 2];
    for (parameter, pan) in ratios.iter().enumerate() {
        assert_eq!(read(&[parameter as i64], b"").pan, *pan);
    }
    assert_eq!(read(&[-1], b"").pan, 2);
    assert_eq!(read(&[], b""), blank());
    assert!(read(&[0, 1], b"").background_is_transparent);
    assert!(!read(&[0, 2], b"").background_is_transparent);
    assert_eq!(read(&[0, 0, -7], b"").horizontal_grid_size, Some(-7));
}

#[test]
fn raster_attributes() {
    let raster = |pan, pad, pixel_width, pixel_height, data: &[SixelData]| Sixel {
        pan,
        pad,
        pixel_width,
        pixel_height,
        data: data.to_vec(),
        ..blank()
    };
    let pixels = [SixelData::Data(63)];
    assert_eq!(read(&[], b"\"3;4~"), raster(3, 4, None, None, &pixels));
    assert_eq!(read(&[], b"\"3;4;5~"), raster(3, 4, Some(5), None, &pixels));
    assert_eq!(read(&[], b"\"3;4;5;6~"), raster(3, 4, Some(5), Some(6), &pixels));
    assert_eq!(read(&[], b"\"3;4;5;6;7~"), raster(3, 4, Some(5), Some(6), &[]));
    assert_eq!(read(&[], b"\"3;4;;6~"), raster(3, 4, None, None, &[]));
    assert_eq!(read(&[], b"\"3~"), raster(2, 1, None, None, &[]));
    assert_eq!(
        read(&[], b"\"99999999999999999999;99999999999999999999;4294967296;1~"),
        raster(2, 1, None, Some(1), &pixels)
    );
    assert_eq!(
        read(&[], b"\"9223372036854775807;9223372036854775808~"),
        raster(i64::MAX, 1, None, None, &pixels)
    );
}

#[test]
fn too_large_an_image_is_dropped() {
    assert_eq!(
        read(&[], b"~\"3;4;10000;10001~~"),
        Sixel {
            pan: 3,
            pad: 4,
            ..blank()
        }
    );
    let image = read(&[], b"~\"3;4;10000;10000~");
    assert_eq!(image.pixel_width, Some(10000));
    assert_eq!(image.pixel_height, Some(10000));
    assert_eq!(image.data.len(), 2);
    assert_eq!(
        read(&[], b"\"1;1;4294967295;4294967295~").pixel_width,
        None
    );
}

#[test]
fn colors() {
    let data = |text: &[u8]| read(&[], text).data;
    assert_eq!(data(b"#7"), vec![SixelData::SelectColorMapEntry(7)]);
    assert_eq!(data(b"#7;"), vec![]);
    assert_eq!(data(b"#65536"), vec![SixelData::SelectColorMapEntry(0)]);
    assert_eq!(
        data(b"#7;1;360;50;100"),
        vec![SixelData::DefineColorMapHSL {
            color_number: 7,
            hue_angle: 360,
            lightness: 50,
            saturation: 100
        }]
    );
    // A color system that does not fit counts as the first.
    assert_eq!(
        data(b"#7;2147483648;1;2;3"),
        vec![SixelData::DefineColorMapHSL {
            color_number: 7,
            hue_angle: 1,
            lightness: 2,
            saturation: 3
        }]
    );
    assert_eq!(
        data(b"#7;2;50;33;101"),
        vec![SixelData::DefineColorMapRGB {
            color_number: 7,
            rgb: RgbColor::new_8bpc(127, 84, 255)
        }]
    );
    assert_eq!(
        data(b"#7;2;300;300;256"),
        vec![SixelData::DefineColorMapRGB {
            color_number: 7,
            rgb: RgbColor::new_8bpc(255, 0, 0)
        }]
    );
    assert_eq!(data(b"#7;2;1;2"), vec![]);
}

#[test]
fn repeats() {
    let data = |text: &[u8]| read(&[], text).data;
    assert_eq!(
        data(b"!3?!4294967296~!5"),
        vec![
            SixelData::Repeat {
                repeat_count: 3,
                data: 0
            },
            SixelData::Repeat {
                repeat_count: 1,
                data: 63
            }
        ]
    );
    assert_eq!(data(b"!~"), vec![]);
    assert_eq!(data(b"!3$"), vec![]);
}

#[test]
fn reading_stops_at_the_first_unknown_byte() {
    assert_eq!(
        read(&[], b"~ ~").data,
        vec![SixelData::Data(63)]
    );
    assert_eq!(read(&[], b"\x7f~").data, vec![]);
}

#[test]
fn six_bits_and_one_instruction_for_each_byte() {
    let text: Vec<u8> = (0x3f..=0x7e).collect();
    let image = read(&[], &text);
    assert_eq!(image.data.len(), text.len());
    for (i, data) in image.data.iter().enumerate() {
        assert_eq!(*data, SixelData::Data(i as u8));
    }
}

#[test]
fn components_scale_as_in_floating_point() {
    for percent in 0..=u16::MAX {
        let text = format!("#0;2;{};0;0", percent);
        let expected = (percent as f32 * 255.0 / 100.) as u8;
        assert_eq!(
            read(&[], text.as_bytes()).data,
            vec![SixelData::DefineColorMapRGB {
                color_number: 0,
                rgb: RgbColor::new_8bpc(expected, 0, 0)
            }]
        );
    }
}

fn number<T: std::str::FromStr>(m: Option<regex::bytes::Match>) -> Option<T> {
    m.and_then(|m| std::str::from_utf8(m.as_bytes()).unwrap().parse().ok())
}

struct Grammar {
    repeat: Regex,
    raster: Regex,
    define: Regex,
    select: Regex,
}

impl Grammar {
    fn new() -> Self {
        Grammar {
            repeat: Regex::new("^!(\\d+)([\x3f-\x7e])").unwrap(),
            raster: Regex::new("^\"(\\d+);(\\d+)(;(\\d+))?(;(\\d+))?").unwrap(),
            define: Regex::new("^#(\\d+);(\\d+);(\\d+);(\\d+);(\\d+)").unwrap(),
            select: Regex::new("^#(\\d+)([^;\\d]|$)").unwrap(),
        }
    }

    fn read(&self, text: &[u8]) -> Sixel {
        let mut image = blank();
        let mut rest = text;
        while !rest.is_empty() {
            let first = rest[0];
            let length;
            if first == b'$' {
                image.data.push(SixelData::CarriageReturn);
                length = 1;
            } else if first == b'-' {
                image.data.push(SixelData::NewLine);
                length = 1;
            } else if (0x3f..=0x7e).contains(&first) {
                image.data.push(SixelData::Data(first - 0x3f));
                length = 1;
            } else if let Some(c) = self.raster.captures(rest) {
                image.pan = number(c.get(1)).unwrap_or(2);
                image.pad = number(c.get(2)).unwrap_or(1);
                image.pixel_width = number(c.get(4));
                image.pixel_height = number(c.get(6));
                if let (Some(w), Some(h)) = (image.pixel_width, image.pixel_height) {
                    if w as u64 * h as u64 > 100_000_000 {
                        image.pixel_width = None;
                        image.pixel_height = None;
                        image.data.clear();
                        return image;
                    }
                }
                length = c[0].len();
            } else if let Some(c) = self.select.captures(rest) {
                let color = number(c.get(1)).unwrap_or(0);
                image.data.push(SixelData::SelectColorMapEntry(color));
                length = c[0].len() - c[2].len();
            } else if let Some(c) = self.define.captures(rest) {
                let color_number = number(c.get(1)).unwrap_or(0);
                let system: i32 = number(c.get(2)).unwrap_or(1);
                let x: u16 = number(c.get(3)).unwrap_or(0);
                let y: u8 = number(c.get(4)).unwrap_or(0);
                let z: u8 = number(c.get(5)).unwrap_or(0);
                let scale = |percent: f32| (percent * 255.0 / 100.) as u8;
                image.data.push(if system == 1 {
                    SixelData::DefineColorMapHSL {
                        color_number,
                        hue_angle: x,
                        lightness: y,
                        saturation: z,
                    }
                } else {
                    SixelData::DefineColorMapRGB {
                        color_number,
                        rgb: RgbColor::new_8bpc(
                            scale(x as f32),
                            scale(y as f32),
                            scale(z as f32),
                        ),
                    }
                });
                length = c[0].len();
            } else if let Some(c) = self.repeat.captures(rest) {
                image.data.push(SixelData::Repeat {
                    repeat_count: number(c.get(1)).unwrap_or(1),
                    data: c[2][0] - 0x3f,
                });
                length = c[0].len();
            } else {
                break;
            }
            rest = &rest[length..];
        }
        image
    }
}

#[test]
fn digits_of_other_scripts() {
    // Such a number is read, but has no value.
    let data = |text: &str| read(&[], text.as_bytes()).data;
    assert_eq!(
        data("#\u{663}~"),
        vec![SixelData::SelectColorMapEntry(0), SixelData::Data(63)]
    );
    assert_eq!(
        data("#7\u{1d7d8};2;100;1\u{966};100"),
        vec![SixelData::DefineColorMapRGB {
            color_number: 0,
            rgb: RgbColor::new_8bpc(255, 0, 255)
        }]
    );
    assert_eq!(
        data("!\u{663}?"),
        vec![SixelData::Repeat {
            repeat_count: 1,
            data: 0
        }]
    );
    assert_eq!(read(&[], "\"\u{663};4".as_bytes()).pan, 2);
    // A numeral that is no decimal digit.
    assert_eq!(data("#\u{b2}"), vec![]);
}

#[test]
fn only_a_character_ends_the_number_of_a_color() {
    let data = |text: &[u8]| read(&[], text).data;
    let selected = vec![SixelData::SelectColorMapEntry(1)];
    assert_eq!(data(b"#1\xff"), vec![]);
    assert_eq!(data("#1\u{e9}".as_bytes()), selected);
    assert_eq!(data("#1\u{20ac}".as_bytes()), selected);
    assert_eq!(data("#1\u{1f915}".as_bytes()), selected);
    // Cut short, overlong, a surrogate, beyond the last character.
    assert_eq!(data(b"#1\xe2\x82"), vec![]);
    assert_eq!(data(b"#1\xc1\xbf"), vec![]);
    assert_eq!(data(b"#1\xed\xa0\x80"), vec![]);
    assert_eq!(data(b"#1\xf4\x90\x80\x80"), vec![]);
}

#[test]
fn the_grammar_of_other_scripts_is_that_of_the_regular_expressions() {
    let grammar = Grammar::new();
    let digit = "\u{663}".as_bytes();
    let wide_digit = "\u{1d7d8}".as_bytes();
    let letter = "\u{20ac}".as_bytes();
    let alphabet: [&[u8]; 15] = [
        b"#", b"#", b"!", b"\"", b";", b";", b"1", b"2", b"~", digit, wide_digit, letter, b"\xff",
        b"\xd9", b"\x80",
    ];
    let mut seed: u64 = 7;
    for round in 0..4_000 {
        let mut text = Vec::new();
        for _ in 0..round % 16 {
            seed = seed
                .wrapping_mul(6364136223846793005)
                .wrapping_add(1442695040888963407);
            text.extend(alphabet[(seed >> 33) as usize % alphabet.len()]);
        }
        assert_eq!(read(&[], &text), grammar.read(&text), "{:?}", text);
    }
    // A number and one more character.
    for c in (0x80..0x3000).filter_map(char::from_u32) {
        let text = format!("#1{}", c);
        assert_eq!(
            read(&[], text.as_bytes()),
            grammar.read(text.as_bytes()),
            "{:?}",
            text
        );
    }
    for first in 0x80..=0xffu8 {
        for second in 0x7f..=0xc0u8 {
            for rest in [&b""[..], b"\x80", b"\xbf\xbf"] {
                let text = [b"#1", &[first, second][..], rest].concat();
                assert_eq!(read(&[], &text), grammar.read(&text), "{:?}", text);
            }
        }
    }
}

#[test]
fn the_grammar_is_that_of_the_regular_expressions() {
    let grammar = Grammar::new();
    let alphabet: &[u8] = b"!\"#$-;;;0123 ~?@\n\x7f";
    let mut seed: u64 = 1;
    for round in 0..200_000 {
        let mut text = Vec::new();
        for _ in 0..round % 24 {
            seed = seed
                .wrapping_mul(6364136223846793005)
                .wrapping_add(1442695040888963407);
            text.push(alphabet[(seed >> 33) as usize % alphabet.len()]);
        }
        assert_eq!(read(&[], &text), grammar.read(&text), "{:?}", text);
    }
    for prefix in [&b"\"1;2"[..], b"#1;2;3;4;5", b"#12", b"!12"] {
        for byte in 0..=0xffu8 {
            let text = [prefix, &[byte], b"7~"].concat();
            assert_eq!(read(&[], &text), grammar.read(&text), "{:?}", text);
        }
    }
}
