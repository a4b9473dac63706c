use pingsweep::addr::{format_ipv4, parse_ipv4, Ipv4Address};
use pingsweep::errors::SweepError;
use pingsweep::input::{select_source, targets_from_text, InputSource};
use pingsweep::range::{expand_range, targets_in_range};

fn addr(value: u32) -> Ipv4Address {
    Ipv4Address { value }
}

#[test]
fn format_is_canonical_dotted_quad() {
    assert_eq!(format_ipv4(addr(0)), "0.0.0.0");
    assert_eq!(format_ipv4(addr(0xFFFF_FFFF)), "255.255.255.255");
    assert_eq!(format_ipv4(addr(0xC0A8_010A)), "192.168.1.10");
    assert_eq!(format_ipv4(addr(0x0A00_0001)), "10.0.0.1");
}

#[test]
fn parse_accepts_canonical_texts() {
    assert_eq!(parse_ipv4("0.0.0.0"), Ok(addr(0)));
    assert_eq!(parse_ipv4("255.255.255.255"), Ok(addr(0xFFFF_FFFF)));
    assert_eq!(parse_ipv4("192.168.1.10"), Ok(addr(0xC0A8_010A)));
    assert_eq!(parse_ipv4("10.0.0.1"), Ok(addr(0x0A00_0001)));
}

#[test]
fn parse_rejects_malformed_texts() {
    let bad = [
        "",
        "10.0.0",
        "10.0.0.0.1",
        "10.0.0.01",
        "010.0.0.1",
        "256.0.0.1",
        "10.0.0.256",
        "a.b.c.d",
        " 10.0.0.1",
        "10.0.0.1 ",
        "10..0.1",
        "10.0.0.",
        ".0.0.1",
        "10,0,0,1",
    ];
    for text in bad {
        assert_eq!(parse_ipv4(text), Err(SweepError::AddressParseError), "{}", text);
    }
}

#[test]
fn parse_and_format_roundtrip() {
    for value in [0u32, 1, 255, 256, 0x0A00_0001, 0x7F00_0001, 0xFFFF_FFFE, 0xFFFF_FFFF] {
        let text = format_ipv4(addr(value));
        assert_eq!(parse_ipv4(&text), Ok(addr(value)));
    }
}

#[test]
fn range_counts_and_ascends() {
    let targets = expand_range(addr(0x0A00_00FE), addr(0x0A00_0102));
    assert_eq!(
        targets,
        vec!["10.0.0.254", "10.0.0.255", "10.0.1.0", "10.0.1.1", "10.0.1.2"]
    );
    assert_eq!(targets.len(), 5);
}

#[test]
fn range_with_equal_bounds_holds_one_target() {
    assert_eq!(expand_range(addr(0x0A00_0001), addr(0x0A00_0001)), vec!["10.0.0.1"]);
}

#[test]
fn range_with_start_above_end_is_empty() {
    assert_eq!(expand_range(addr(0x0A00_0002), addr(0x0A00_0001)), Vec::<String>::new());
}

#[test]
fn range_mode_parses_both_bounds() {
    assert_eq!(
        targets_in_range("10.0.0.1", "10.0.0.3"),
        Ok(vec!["10.0.0.1".to_string(), "10.0.0.2".to_string(), "10.0.0.3".to_string()])
    );
    assert_eq!(targets_in_range("10.0.0.x", "10.0.0.3"), Err(SweepError::AddressParseError));
    assert_eq!(targets_in_range("10.0.0.1", "10.0.0.300"), Err(SweepError::AddressParseError));
}

#[test]
fn selecting_one_mode_succeeds() {
    let range = select_source(Some("10.0.0.1".to_string()), Some("10.0.0.3".to_string()), None, false);
    match range {
        Ok(InputSource::Range(a, b)) => {
            assert_eq!(a, "10.0.0.1");
            assert_eq!(b, "10.0.0.3");
        },
        _ => panic!("range mode not selected"),
    }
    let file = select_source(None, None, Some("hosts.txt".to_string()), false);
    match file {
        Ok(InputSource::File(p)) => assert_eq!(p, "hosts.txt"),
        _ => panic!("file mode not selected"),
    }
    assert!(matches!(select_source(None, None, None, true), Ok(InputSource::Pipe)));
}

#[test]
fn selecting_zero_or_mixed_modes_is_rejected() {
    let some = || Some("x".to_string());
    assert!(matches!(
        select_source(None, None, None, false),
        Err(SweepError::InvalidInputCombination)
    ));
    assert!(matches!(
        select_source(some(), some(), some(), false),
        Err(SweepError::InvalidInputCombination)
    ));
    assert!(matches!(
        select_source(some(), some(), None, true),
        Err(SweepError::InvalidInputCombination)
    ));
    assert!(matches!(
        select_source(None, None, some(), true),
        Err(SweepError::InvalidInputCombination)
    ));
    assert!(matches!(
        select_source(some(), some(), some(), true),
        Err(SweepError::InvalidInputCombination)
    ));
    // half a range is not a mode
    assert!(matches!(
        select_source(some(), None, None, false),
        Err(SweepError::InvalidInputCombination)
    ));
    assert!(matches!(
        select_source(None, some(), None, false),
        Err(SweepError::InvalidInputCombination)
    ));
}

#[test]
fn file_lines_become_targets_in_order() {
    let targets = targets_from_text("alpha\nbeta\n\ngamma\n");
    assert_eq!(targets, vec!["alpha", "beta", "gamma"]);
}

#[test]
fn empty_text_yields_no_targets() {
    assert_eq!(targets_from_text(""), Vec::<String>::new());
    assert_eq!(targets_from_text("\n\n\r\n"), Vec::<String>::new());
}

#[test]
fn carriage_returns_are_stripped_from_line_ends() {
    assert_eq!(targets_from_text("one\r\ntwo\r\n"), vec!["one", "two"]);
    assert_eq!(targets_from_text("last\r"), vec!["last"]);
    assert_eq!(targets_from_text("no-newline-at-end"), vec!["no-newline-at-end"]);
}
