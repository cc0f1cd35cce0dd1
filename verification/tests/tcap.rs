use escape_parser::tcap::GetTcapBuilder;

fn names(query: &[u8]) -> Vec<String> {
    let mut builder = GetTcapBuilder::default();
    for byte in query {
        builder.push(*byte);
    }
    builder.finish()
}

#[test]
fn one_name_for_each_piece() {
    assert_eq!(names(b"544e"), vec!["TN"]);
    assert_eq!(names(b"544e;436F"), vec!["TN", "Co"]);
    assert_eq!(names(b"544e;"), vec!["TN", ""]);
    assert_eq!(names(b";;"), vec!["", "", ""]);
    assert_eq!(names(b""), vec![""]);
}

#[test]
fn what_is_not_hexadecimal_stays_as_it_is() {
    assert_eq!(names(b"544;xyz;5g"), vec!["544", "xyz", "5g"]);
}

#[test]
fn bytes_that_are_no_utf8_are_replaced() {
    assert_eq!(names(b"41ff42"), vec!["A\u{fffd}B"]);
    assert_eq!(names(b"z\xffz"), vec!["z\u{fffd}z"]);
}

#[test]
fn hexadecimal_names_round_trip() {
    for name in ["", "TN", "colors", "\u{e9}\u{20ac}\u{1f915}"] {
        assert_eq!(names(hex::encode(name).as_bytes()), vec![name]);
        assert_eq!(names(hex::encode_upper(name).as_bytes()), vec![name]);
    }
}

#[test]
fn pieces_joined_give_the_query() {
    for query in ["zz;yy;;xx", ";", "zz", ";zz;"] {
        assert_eq!(names(query.as_bytes()).join(";"), query);
    }
}
