use stdinout_proxy::dec::Dec;
use stdinout_proxy::error::Error;
use stdinout_proxy::params::PathParams;
use stdinout_proxy::response::decode_path_response;
use stdinout_proxy::server::Config;

fn dec(s: &str) -> Dec {
    Dec::parse(s).unwrap()
}

fn sample_params() -> PathParams {
    PathParams {
        lat: dec("44.73566"),
        lon: dec("-68.82446"),
        txh: dec("4"),
        f: dec("900"),
        erp: dec("5"),
        rxh: dec("2"),
        rt: dec("-90"),
        dbm: true,
        m: true,
        pm: dec("4"),
        rla: dec("44.73436"),
        rlo: dec("-68.81993"),
        pe: None,
        gc: None,
    }
}

#[test]
fn test_params_to_string() {
    let params = sample_params();
    let params_string = params.to_stdout_string();
    assert_eq!(
        params_string,
        "-lat 44.73566 -lon -68.82446 -txh 4 -f 900 -erp 5 -rxh 2 -rt -90 -dbm -m -pm 4 -rla 44.73436 -rlo -68.81993\r\n"
    );
}

#[test]
fn encode_round_trip_by_position() {
    let params = sample_params();
    let line = params.to_stdout_string();
    let body = line.strip_suffix("\r\n").unwrap();
    let toks: Vec<&str> = body.split(' ').collect();
    assert_eq!(toks.len(), 22);
    assert_eq!(Dec::parse(toks[1]).unwrap(), params.lat);
    assert_eq!(Dec::parse(toks[3]).unwrap(), params.lon);
    assert_eq!(Dec::parse(toks[5]).unwrap(), params.txh);
    assert_eq!(Dec::parse(toks[7]).unwrap(), params.f);
    assert_eq!(Dec::parse(toks[9]).unwrap(), params.erp);
    assert_eq!(Dec::parse(toks[11]).unwrap(), params.rxh);
    assert_eq!(Dec::parse(toks[13]).unwrap(), params.rt);
    // two flag tokens sit between -rt and -pm
    assert_eq!(Dec::parse(toks[17]).unwrap(), params.pm);
    assert_eq!(Dec::parse(toks[19]).unwrap(), params.rla);
    assert_eq!(Dec::parse(toks[21]).unwrap(), params.rlo);
}

#[test]
fn encode_keeps_exact_precision() {
    let d = dec("44.73566");
    assert_eq!(d.to_text(), "44.73566");
    let d = dec("5.50");
    assert_eq!(d.to_text(), "5.50");
    let d = dec("-0.0");
    assert_eq!(d.to_text(), "0.0");
}

#[test]
fn optional_fields_only_when_present() {
    let mut params = sample_params();
    params.pe = Some(4);
    params.gc = Some(10);
    let line = params.to_stdout_string();
    assert!(line.ends_with(" -pe 4 -gc 10\r\n"));
    params.pe = None;
    let line = params.to_stdout_string();
    assert!(!line.contains("-pe"));
    assert!(line.ends_with(" -gc 10\r\n"));
}

#[test]
fn boolean_flag_fidelity() {
    let mut params = sample_params();
    params.dbm = false;
    params.m = true;
    let line = params.to_stdout_string();
    let body = line.strip_suffix("\r\n").unwrap();
    assert_eq!(body.split(' ').filter(|t| *t == "-dbm").count(), 0);
    assert_eq!(body.split(' ').filter(|t| *t == "-m").count(), 1);
    params.dbm = true;
    let line = params.to_stdout_string();
    let body = line.strip_suffix("\r\n").unwrap();
    assert_eq!(body.split(' ').filter(|t| *t == "-dbm").count(), 1);
}

#[test]
fn response_decode_boundary() {
    let m = decode_path_response("65.1 -25.9 110.4\r\n").unwrap();
    assert_eq!(m.path_loss, dec("65.1"));
    assert_eq!(m.received_power, dec("-25.9"));
    assert_eq!(m.field_strength, dec("110.4"));

    assert_eq!(
        decode_path_response("65.1 -25.9\r\n"),
        Err(Error::MalformedResponse)
    );
    assert_eq!(
        decode_path_response("65.1 -25.9 110.4 7\r\n"),
        Err(Error::MalformedResponse)
    );
}

#[test]
fn response_decode_terminators() {
    assert!(decode_path_response("65.1 -25.9 110.4\n").is_ok());
    assert!(decode_path_response("65.1 -25.9 110.4").is_ok());
    assert_eq!(
        decode_path_response("65.1 -25.9 not-a-number\r\n"),
        Err(Error::MalformedResponse)
    );
    assert_eq!(decode_path_response(""), Err(Error::MalformedResponse));
}

#[test]
fn dec_parse_rejects_bad_tokens() {
    assert!(Dec::parse("").is_none());
    assert!(Dec::parse("-").is_none());
    assert!(Dec::parse("5.").is_none());
    assert!(Dec::parse(".5").is_none());
    assert!(Dec::parse("05").is_none());
    assert!(Dec::parse("1..2").is_none());
    assert!(Dec::parse("abc").is_none());
    assert!(Dec::parse("1 2").is_none());
    // twenty digits exceed the supported width; nineteen fit
    assert!(Dec::parse("12345678901234567890").is_none());
    assert!(Dec::parse("1234567890123456789").is_some());
}

#[test]
fn dec_from_text_reports_invalid_parameters() {
    assert_eq!(Dec::from_text("abc"), Err(Error::InvalidParameters));
    assert_eq!(Dec::from_text("65.1"), Ok(dec("65.1")));
}

#[test]
fn threshold_is_strictly_greater_than() {
    // equal values never exceed, whatever their trailing zeros
    assert!(!dec("-25.9").gt(&dec("-25.9")));
    assert!(!dec("5.50").gt(&dec("5.5")));
    assert!(!dec("5.5").gt(&dec("5.50")));
    // any positive epsilon tips the comparison
    assert!(dec("-25.8999").gt(&dec("-25.9")));
    assert!(dec("5.51").gt(&dec("5.5")));
    assert!(!dec("-25.9001").gt(&dec("-25.9")));
    // signs
    assert!(dec("0.1").gt(&dec("-0.1")));
    assert!(!dec("-0.1").gt(&dec("0.1")));
    assert!(dec("-1.5").gt(&dec("-2")));
    assert!(dec("0").gt(&dec("-0.0001")));
}

#[test]
fn config_requires_engine_path() {
    assert!(Config::new(None, Some("/data".to_string())).is_err());
    match Config::new(None, None) {
        Err(e) => assert_eq!(e, Error::ConfigurationError),
        Ok(_) => panic!("missing executable path must fail"),
    }
    let c = Config::new(Some("/bin/engine".to_string()), Some("/data".to_string())).unwrap();
    assert_eq!(c.exec_path, "/bin/engine");
    assert_eq!(c.terrain_path, "/data");
    assert!(!c.debug);
    let c = Config::new(Some("/bin/engine".to_string()), None).unwrap();
    assert!(c.debug);
}

#[test]
fn error_messages_name_the_failure() {
    assert_eq!(Error::MalformedResponse.message(), "malformed engine response");
    assert_eq!(
        Error::InvalidResolution.message(),
        "resolution outside the supported range"
    );
}

#[test]
fn plot_params_to_string() {
    let params = stdinout_proxy::params::PlotParams {
        lat: dec("44.73566"),
        lon: dec("-68.82446"),
        txh: dec("4"),
        f: dec("900"),
        erp: dec("5"),
        rxh: dec("2"),
        rt: dec("-90"),
        dbm: true,
        t: Some(true),
        m: false,
        r: 2,
        pm: dec("4"),
        pe: Some(4),
        gc: Some(10),
    };
    assert_eq!(
        params.to_stdout_string(),
        "-lat 44.73566 -lon -68.82446 -txh 4 -f 900 -erp 5 -rxh 2 -rt -90 -dbm -pm 4 -R 2 -t -pe 4 -gc 10\r\n"
    );
}

#[test]
fn h3_params_to_string_carries_receiver() {
    let params = stdinout_proxy::params::H3PlotParams {
        lat: dec("44.73566"),
        lon: dec("-68.82446"),
        txh: dec("4"),
        f: dec("900"),
        erp: dec("5"),
        rxh: dec("2"),
        rt: dec("-90"),
        dbm: false,
        pm: dec("4"),
        res: 9,
        pe: None,
        gc: None,
    };
    assert_eq!(
        params.to_stdout_string("44.73436", "-68.81993"),
        "-lat 44.73566 -lon -68.82446 -rla 44.73436 -rlo -68.81993 -txh 4 -f 900 -erp 5 -rxh 2 -rt -90 -pm 4\r\n"
    );
}

#[test]
fn plot_terrain_flag_only_when_true() {
    let mut params = stdinout_proxy::params::PlotParams {
        lat: dec("44.73566"),
        lon: dec("-68.82446"),
        txh: dec("4"),
        f: dec("900"),
        erp: dec("5"),
        rxh: dec("2"),
        rt: dec("-90"),
        dbm: false,
        t: Some(false),
        m: false,
        r: 2,
        pm: dec("4"),
        pe: None,
        gc: None,
    };
    let line = params.to_stdout_string();
    let body = line.strip_suffix("\r\n").unwrap();
    assert_eq!(body.split(' ').filter(|t| *t == "-t").count(), 0);
    params.t = None;
    let line = params.to_stdout_string();
    let body = line.strip_suffix("\r\n").unwrap();
    assert_eq!(body.split(' ').filter(|t| *t == "-t").count(), 0);
    params.t = Some(true);
    let line = params.to_stdout_string();
    let body = line.strip_suffix("\r\n").unwrap();
    assert_eq!(body.split(' ').filter(|t| *t == "-t").count(), 1);
}
