use pimprobe::parser::{parse_line, MachineStatus, ParseError, ProbeReport, Record};

/// A coordinate or setting text as the service reads it: a finite number.
fn finite(text: &str) -> Option<f64> {
    text.trim().parse::<f64>().ok().filter(|v| v.is_finite())
}

fn coordinates(texts: &[String]) -> Vec<f64> {
    texts.iter().map(|t| finite(t).unwrap()).collect()
}

/// The record of a line once its numbers are read, as the service reads
/// controller output: a line whose coordinates or setting value are not
/// finite numbers is refused like a malformed one.
fn read(line: &str) -> Result<Option<Record>, String> {
    let record = parse_line(line).map_err(|e| e.message())?;
    let texts: Vec<String> = match &record {
        Some(Record::Status(s)) => s.decimals.clone(),
        Some(Record::Probe(p)) => p.position.iter().chain(p.tool_length.iter()).cloned().collect(),
        Some(Record::Setting(_, v)) => vec![v.clone()],
        _ => vec![],
    };
    if texts.iter().any(|t| finite(t).is_none()) {
        return Err("non-finite number".into());
    }
    Ok(record)
}

fn status(line: &str) -> MachineStatus {
    match read(line).unwrap() {
        Some(Record::Status(s)) => s,
        other => panic!("expected status, got {other:?}"),
    }
}

fn probe(line: &str) -> ProbeReport {
    match read(line).unwrap() {
        Some(Record::Probe(p)) => p,
        other => panic!("expected probe, got {other:?}"),
    }
}

#[test]
fn numbered_reports_with_compact_actuator_state() {
    for actuator in 0..=3u8 {
        let mut compact = b"000000010010110011010000001010001001000001".to_vec();
        compact[29] = b'0' + actuator;
        let line = format!(
            "[SerialReport:180] <Ready|MPos:0,0,0,0|WPos:232.410,204.066,121.781,0|T:0|M:5|G:54|MS:{}|Abnormal:[]>",
            String::from_utf8(compact).unwrap()
        );
        let Some(Record::Status(status)) = read(&line).unwrap() else {
            panic!("expected status");
        };
        assert!(status.complete && status.probe_actuator_known);
        assert_eq!(status.probe_actuator, i32::from(actuator));
    }
}

#[test]
fn original_cnc_lab_protocol_fixtures() {
    let s = status("<Ready|MPos:-156.755,-100.852,0.000,0.000|WPos:3.480,-7.588,38.500,0.000|T:2|M:5|G:55|PM:1|Pn:P|MS:1100100100100100110100000010100000010000|Abnormal:[106]>");
    assert!(s.complete && s.door_open && !s.motion_blocked && s.probe_triggered);
    assert_eq!(coordinates(&s.m_pos), vec![-156.755, -100.852, 0.0, 0.0]);
    assert_eq!(
        coordinates(s.w_pos.as_ref().unwrap()),
        vec![3.480, -7.588, 38.500, 0.0]
    );
    assert_eq!((s.tool, s.spindle_mode, s.wcs), (2, 5, 55));
    let s = status("<Alarm:2|MPos:0,0,0,0|WPos:0,0,0,0|M:5|G:54|PM:0|Abnormal:[2,106]>");
    assert!(s.motion_blocked && s.door_open && !s.complete);
    for (line, tool) in [
        ("[PRB:-104.686,-23.692,-102.073,0.000:1]", None),
        (
            "[PROBE:-104.686,-23.692,-102.073,0.000:1,-38.500]",
            Some(-38.5),
        ),
    ] {
        let p = probe(line);
        assert_eq!(coordinates(&p.position), vec![-104.686, -23.692, -102.073, 0.0]);
        assert!(p.success);
        assert_eq!(p.tool_length.as_deref().map(|t| finite(t).unwrap()), tool);
    }
    for (line, expected) in [
        ("[GC:G0 G54 G17 G21 G90 G94 M5 M9 T0 F0 S0]", (21, 90, 94)),
        (
            "[GC:G38.2 G55 G17 G20 G91 G93 M5 M9 T0 F10 S0]",
            (20, 91, 93),
        ),
    ] {
        let Some(Record::Modes(m)) = read(line).unwrap() else {
            panic!()
        };
        assert_eq!((m.units, m.distance, m.feed), expected);
    }
    assert!(read("CNC_Lab started").unwrap().is_none());
}

#[test]
fn records_and_safety() {
    let s = status("<Ready|MPos:1,2,3,4|PM:1|Pn:P|Abnormal:[106]|M:5|G:54>");
    assert!(s.door_open && !s.motion_blocked && s.probe_triggered);
    assert!(matches!(read("error:9").unwrap(), Some(Record::Error(9))));
    assert!(matches!(
        read("[PROBE:1,2,3,4:1,5]").unwrap(),
        Some(Record::Probe(_))
    ));
    match read("$33=1.5").unwrap() {
        Some(Record::Setting(33, v)) => assert_eq!(finite(&v), Some(1.5)),
        other => panic!("expected setting, got {other:?}"),
    }
    let Some(Record::Modes(m)) = read("[GC:G21 G91 G94]").unwrap() else {
        panic!()
    };
    assert_eq!((m.units, m.distance, m.feed), (21, 91, 94));
    assert!(read("banner").unwrap().is_none());
}

#[test]
fn rejects_malformed() {
    for s in [
        "<Ready>",
        "<Ready|MPos:1,2,3,4|PM:4>",
        "[PRB:1,2,3:1]",
        "$33=NaN",
        "error:no",
        "[GC:G21",
        "<Ready|MPos:NaN,2,3,4>",
    ] {
        assert!(parse_line(s).is_err(), "{s}");
    }
}

#[test]
fn coordinates_follow_float_syntax() {
    assert_eq!(parse_line("$33=NaN"), Err(ParseError::NonFiniteNumber));
    assert_eq!(parse_line("$33=-inf"), Err(ParseError::NonFiniteNumber));
    assert_eq!(parse_line("<Ready|MPos:1,Infinity,3,4>"), Err(ParseError::NonFiniteNumber));
    assert_eq!(
        parse_line("<Ready|MPos:1,2,x,4>"),
        Err(ParseError::InvalidNumber("x".into()))
    );
    // Each coordinate is checked before they are counted.
    assert_eq!(
        parse_line("[PRB:1,2,3,4,5.:1]"),
        Err(ParseError::ExpectedFourCoordinates)
    );
    assert_eq!(
        parse_line("[PRB:1,2,3,4,.:1]"),
        Err(ParseError::InvalidNumber(".".into()))
    );
    // The tool length is checked before the count of result values.
    assert_eq!(
        parse_line("[PROBE:1,2,3,4:1,1e,7]"),
        Err(ParseError::InvalidNumber("1e".into()))
    );
    assert_eq!(
        parse_line("[PROBE:1,2,3,4:1,2,7]"),
        Err(ParseError::TooManyProbeValues)
    );
    for text in ["1", "-1.", "+.5", " 2.5e-3 ", "7E+2", "0.000"] {
        let line = format!("$1={text}");
        assert!(
            matches!(parse_line(&line), Ok(Some(Record::Setting(1, _)))),
            "{text}"
        );
        assert!(text.trim().parse::<f64>().is_ok(), "{text}");
    }
    for text in ["", ".", "e5", "1e", "1.2.3", "0x10", "1_0", "--1"] {
        let line = format!("$1={text}");
        assert_eq!(
            parse_line(&line),
            Err(ParseError::InvalidNumber(text.into())),
            "{text}"
        );
        assert!(text.trim().parse::<f64>().is_err(), "{text}");
    }
    assert_eq!(ParseError::NonFiniteNumber.message(), "non-finite number");
}

#[test]
fn malformed_lines_name_their_defect() {
    assert_eq!(parse_line("<Ready>"), Err(ParseError::MissingMPos));
    assert_eq!(parse_line("<>"), Err(ParseError::MissingState));
    assert_eq!(
        parse_line("<Ready|MPos:1,2,3,4|PM:4>"),
        Err(ParseError::InvalidActuatorState)
    );
    assert_eq!(parse_line("[PRB:1,2,3:1]"), Err(ParseError::ExpectedFourCoordinates));
    assert_eq!(parse_line("[PRB:1,2,3,4]"), Err(ParseError::MissingProbeResult));
    assert_eq!(parse_line("[PRB:1,2,3,4:1,2,3]"), Err(ParseError::TooManyProbeValues));
    assert_eq!(
        parse_line("error:no"),
        Err(ParseError::InvalidNumber("no".into()))
    );
    assert_eq!(parse_line("[GC:G21"), Err(ParseError::MissingClosingBracket));
    assert_eq!(
        parse_line("[SerialReport:x] ok"),
        Err(ParseError::InvalidNumber("x".into()))
    );
    assert_eq!(parse_line("[SerialReport:1]ok"), Err(ParseError::InvalidReportPrefix));
    assert_eq!(
        parse_line("<Ready|MPos:1,2,3,4|Abnormal:106>"),
        Err(ParseError::InvalidAbnormalList)
    );
    assert_eq!(
        ParseError::InvalidNumber("no".into()).message(),
        "invalid number: no"
    );
    assert_eq!(ParseError::MissingMPos.message(), "missing MPos");
}

#[test]
fn status_details_follow_the_report() {
    // The actuator field wins over the compact field.
    let s = status("<Idle|MPos:0,0,0,0|PM:2|MS:000000000000000000000000000001>");
    assert_eq!((s.probe_actuator, s.probe_actuator_known), (2, true));
    assert_eq!(s.mode, "Idle");
    assert!(!s.complete && s.w_pos.is_none());
    // An alarm blocks motion unless the door explains it.
    assert!(status("<Alarm:1|MPos:0,0,0,0>").motion_blocked);
    assert!(!status("<Alarm:1|MPos:0,0,0,0|Abnormal:[106]>").motion_blocked);
    // A tool number below zero or a WCS outside G54..G59 is incomplete.
    assert!(!status("<Ready|MPos:0,0,0,0|WPos:0,0,0,0|T:-1|M:5|G:54>").complete);
    assert!(!status("<Ready|MPos:0,0,0,0|WPos:0,0,0,0|T:1|M:5|G:53>").complete);
    assert!(status("<Ready|MPos:0,0,0,0|WPos:0,0,0,0|T:1|M:5|G:59>").complete);
    // Fields without a colon and unknown keys are skipped.
    assert!(status("<Ready|MPos:0,0,0,0|junk|FS:0,0>").decimals.len() == 4);
    assert_eq!(parse_line("ok"), Ok(Some(Record::Ack)));
    assert_eq!(parse_line("  [SerialReport:7] ok \r"), Ok(Some(Record::Ack)));
    assert_eq!(parse_line("$N0=G21"), Ok(None));
}

#[test]
fn surrounding_space_and_report_numbers_do_not_change_records() {
    assert_eq!(
        parse_line(" \t<Idle|MPos:1,2,3,4>\r\n "),
        parse_line("<Idle|MPos:1,2,3,4>")
    );
    assert_eq!(parse_line("[SerialReport:42] error:9"), parse_line("error:9"));
    assert_eq!(parse_line("[SerialReport:42] $33=1.5"), parse_line("$33=1.5"));
    assert_eq!(parse_line("[SerialReport:7] banner"), Ok(None));
}

#[test]
fn modes_reports_give_back_the_commanded_modes() {
    for units in [20, 21] {
        for distance in [90, 91] {
            for feed in [93, 94] {
                let m = pimprobe::probe::Modes { units, distance, feed };
                let line = format!("[GC:{}]", m.command());
                assert_eq!(parse_line(&line), Ok(Some(Record::Modes(m))), "{line}");
            }
        }
    }
}

#[test]
fn decimals_too_large_for_a_float_are_refused() {
    const HALFWAY: &str = "179769313486231580793728971405303415079934132710037826936173778980444968292764750946649017977587207096330286416692887910946555547851940402630657488671505820681908902000708383676273854845817711531764475730270069855571366959622842914819860834936475292719074168444365510704342711559699508093042880177904174497792";
    const BELOW: &str = "179769313486231580793728971405303415079934132710037826936173778980444968292764750946649017977587207096330286416692887910946555547851940402630657488671505820681908902000708383676273854845817711531764475730270069855571366959622842914819860834936475292719074168444365510704342711559699508093042880177904174497791";
    for text in ["1e400", "1.8e308", "-1e309", HALFWAY, "17976931348623158079372897140530341507993413271003782693617377898044496829276475094664901797758720709633028641669288791094655554785194040263065748867150582068190890200070838367627385484581771153176447573027006985557136695962284291481986083493647529271907416844436551070434271155969950809304288017790417449779200000e-5", "1e99999999999999999999999999999999999"] {
        let line = format!("$1={text}");
        assert_eq!(parse_line(&line), Err(ParseError::NonFiniteNumber), "{text}");
        assert!(text.parse::<f64>().unwrap().is_infinite(), "{text}");
    }
    for text in [
        "1.7976931348623157e308",
        BELOW,
        "0e99999999999999999999999999999999999",
        "1e-400",
        "0.00000000000000000000000000000000000000000001e330",
        "1e-99999999999999999999999999999999999",
    ] {
        let line = format!("<Idle|MPos:{text},0,0,0>");
        assert!(matches!(parse_line(&line), Ok(Some(Record::Status(_)))), "{text}");
        assert!(text.parse::<f64>().unwrap().is_finite(), "{text}");
    }
}
