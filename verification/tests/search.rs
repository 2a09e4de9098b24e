use std::collections::HashSet;

use stdinout_proxy::dec::Dec;
use stdinout_proxy::engine::{DaemonHandle, Engine, EngineFault};
use stdinout_proxy::error::Error;
use stdinout_proxy::params::{H3PlotParams, PathParams, PlotParams};

fn dec(s: &str) -> Dec {
    Dec::parse(s).unwrap()
}

fn h3_params(res: u8) -> H3PlotParams {
    H3PlotParams {
        lat: dec("44.73566"),
        lon: dec("-68.82446"),
        txh: dec("4"),
        f: dec("900"),
        erp: dec("5"),
        rxh: dec("2"),
        rt: dec("-90"),
        dbm: true,
        pm: dec("4"),
        res,
        pe: None,
        gc: None,
    }
}

/// The origin cell that the search derives for `h3_params`, computed with
/// the same grid library the search calls.
fn origin_cell(res: u8) -> h3o::CellIndex {
    let ll = h3o::LatLng::new(44.73566, -68.82446).unwrap();
    ll.to_cell(h3o::Resolution::try_from(res).unwrap())
}

/// The receiver coordinates of a request line, as the search writes them.
fn receiver_of(request: &str) -> (String, String) {
    let toks: Vec<&str> = request.trim_end().split(' ').collect();
    let rla = toks.iter().position(|t| *t == "-rla").unwrap();
    let rlo = toks.iter().position(|t| *t == "-rlo").unwrap();
    (toks[rla + 1].to_string(), toks[rlo + 1].to_string())
}

/// An engine stub that qualifies exactly a chosen set of cells, recognised
/// by their centroid texts, and counts how often it is called.
struct MockEngine {
    qualifying: HashSet<(String, String)>,
    calls: usize,
    /// received power for a qualifying cell, and for any other cell
    above: &'static str,
    below: &'static str,
}

impl MockEngine {
    fn qualifying_within(res: u8, distance: u32) -> HashSet<(String, String)> {
        let mut set = HashSet::new();
        for cell in origin_cell(res).grid_disk::<Vec<_>>(distance) {
            let ll = h3o::LatLng::from(cell);
            set.insert((format!("{}", ll.lat()), format!("{}", ll.lng())));
        }
        set
    }
}

impl Engine for MockEngine {
    fn call_line(&mut self, request: &str) -> Result<String, EngineFault> {
        self.calls += 1;
        let rx = receiver_of(request);
        let dbm = if self.qualifying.contains(&rx) {
            self.above
        } else {
            self.below
        };
        Ok(format!("65.1 {} 110.4\r\n", dbm))
    }

    fn call_raw(&mut self, request: &str) -> Result<Vec<u8>, EngineFault> {
        self.calls += 1;
        let _ = request;
        Ok(vec![0x89, 0x50, 0x4e, 0x47])
    }
}

/// A transport that always fails.
struct DownEngine;

impl Engine for DownEngine {
    fn call_line(&mut self, _request: &str) -> Result<String, EngineFault> {
        Err(EngineFault)
    }
    fn call_raw(&mut self, _request: &str) -> Result<Vec<u8>, EngineFault> {
        Err(EngineFault)
    }
}

#[test]
fn ring_termination_stops_at_first_empty_ring() {
    let res: u8 = 9;
    let engine = MockEngine {
        qualifying: MockEngine::qualifying_within(res, 2),
        calls: 0,
        above: "-80",
        below: "-95",
    };
    let mut handle = DaemonHandle::new(engine);
    let map = handle.h3plot(&h3_params(res)).unwrap();

    let expected: HashSet<u64> = origin_cell(res)
        .grid_disk::<Vec<_>>(2)
        .into_iter()
        .map(u64::from)
        .collect();
    let mut got = HashSet::new();
    for i in 0..map.len() {
        let entry = map.entry_at(i);
        assert_eq!(entry.1, dec("-80"));
        got.insert(entry.0);
    }
    assert_eq!(got, expected);

    // rings 0..=3 were sampled — ring 3 found empty — and ring 4 never was
    let sampled = origin_cell(res).grid_disk::<Vec<_>>(3).len();
    assert_eq!(handle.engine.calls, sampled);
}

#[test]
fn threshold_equal_is_excluded_epsilon_included() {
    let res: u8 = 9;
    // every cell answers exactly the threshold: even the origin is excluded
    let engine = MockEngine {
        qualifying: HashSet::new(),
        calls: 0,
        above: "-80",
        below: "-90",
    };
    let mut handle = DaemonHandle::new(engine);
    let map = handle.h3plot(&h3_params(res)).unwrap();
    assert_eq!(map.len(), 0);
    assert_eq!(handle.engine.calls, 1);

    // one cell exceeds the threshold by a sliver: exactly that cell is kept
    let engine = MockEngine {
        qualifying: MockEngine::qualifying_within(res, 0),
        calls: 0,
        above: "-89.9999",
        below: "-90",
    };
    let mut handle = DaemonHandle::new(engine);
    let map = handle.h3plot(&h3_params(res)).unwrap();
    assert_eq!(map.len(), 1);
    let origin = u64::from(origin_cell(res));
    assert_eq!(map.get(origin), Some(&dec("-89.9999")));
    assert_eq!(map.get(origin ^ 1), None);
}

#[test]
fn resolution_validation_makes_no_engine_call() {
    for res in [0u8, 11, 15, 200] {
        let engine = MockEngine {
            qualifying: HashSet::new(),
            calls: 0,
            above: "-80",
            below: "-95",
        };
        let mut handle = DaemonHandle::new(engine);
        let r = handle.h3plot(&h3_params(res));
        match r {
            Err(e) => assert_eq!(e, Error::InvalidResolution),
            Ok(_) => panic!("resolution {} must be rejected", res),
        }
        assert_eq!(handle.engine.calls, 0);
    }
}

#[test]
fn path_decodes_engine_reply() {
    let engine = MockEngine {
        qualifying: HashSet::new(),
        calls: 0,
        above: "-80",
        below: "-25.9",
    };
    let mut handle = DaemonHandle::new(engine);
    let params = PathParams {
        lat: dec("44.73566"),
        lon: dec("-68.82446"),
        txh: dec("4"),
        f: dec("900"),
        erp: dec("5"),
        rxh: dec("2"),
        rt: dec("-90"),
        dbm: true,
        m: true,
        pm: dec("4"),
        rla: dec("44.73436"),
        rlo: dec("-68.81993"),
        pe: None,
        gc: None,
    };
    let m = handle.path(&params).unwrap();
    assert_eq!(m.path_loss, dec("65.1"));
    assert_eq!(m.received_power, dec("-25.9"));
    assert_eq!(m.field_strength, dec("110.4"));

    let mut down = DaemonHandle::new(DownEngine);
    assert_eq!(down.path(&params), Err(Error::EngineUnavailable));
}

#[test]
fn plot_hands_back_raw_bytes() {
    let engine = MockEngine {
        qualifying: HashSet::new(),
        calls: 0,
        above: "-80",
        below: "-95",
    };
    let mut handle = DaemonHandle::new(engine);
    let params = PlotParams {
        lat: dec("44.73566"),
        lon: dec("-68.82446"),
        txh: dec("4"),
        f: dec("900"),
        erp: dec("5"),
        rxh: dec("2"),
        rt: dec("-90"),
        dbm: true,
        t: Some(true),
        m: false,
        r: 2,
        pm: dec("4"),
        pe: Some(4),
        gc: None,
    };
    assert_eq!(handle.plot(&params).unwrap(), vec![0x89, 0x50, 0x4e, 0x47]);
    let mut down = DaemonHandle::new(DownEngine);
    assert_eq!(down.plot(&params), Err(Error::EngineUnavailable));
}

#[test]
fn engine_failure_mid_search_is_engine_unavailable() {
    let mut handle = DaemonHandle::new(DownEngine);
    match handle.h3plot(&h3_params(9)) {
        Err(e) => assert_eq!(e, Error::EngineUnavailable),
        Ok(_) => panic!("a dead engine must fail the search"),
    }
}

#[test]
fn malformed_reply_mid_search_is_malformed_response() {
    struct GarbledEngine;
    impl Engine for GarbledEngine {
        fn call_line(&mut self, _request: &str) -> Result<String, EngineFault> {
            Ok("no numbers here\r\n".to_string())
        }
        fn call_raw(&mut self, _request: &str) -> Result<Vec<u8>, EngineFault> {
            Ok(Vec::new())
        }
    }
    let mut handle = DaemonHandle::new(GarbledEngine);
    match handle.h3plot(&h3_params(9)) {
        Err(e) => assert_eq!(e, Error::MalformedResponse),
        Ok(_) => panic!("a garbled reply must fail the search"),
    }
}
