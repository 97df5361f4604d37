use mm::error::mm_error;
use mm::handle::{p_handle, ModuleProbe, MockSystem, MOCK_PROCESS_HANDLE};
use mm::mouse::{Mouse, MouseError, Point};

fn system() -> MockSystem {
    MockSystem {
        pids: vec![0, 100, 0, 200],
        names: vec![
            (100, String::from("other.exe")),
            (200, String::from("Target.exe")),
        ],
        modules: vec![
            ModuleProbe {
                name: Some(String::from("App.exe")),
                meta: Some((0x40_0000, 0x1000, 0x40_1000)),
            },
            ModuleProbe { name: None, meta: Some((0x50_0000, 0x2000, 0x50_0000)) },
            ModuleProbe { name: Some(String::from("ghost.dll")), meta: None },
            ModuleProbe {
                name: Some(String::from("Lib.dll")),
                meta: Some((0x7FF0_0000, 0x8000, 0x7FF0_1000)),
            },
        ],
        probed: Vec::new(),
        enum_fail: None,
    }
}

#[test]
fn find_by_name_skips_zero_and_matches_case_insensitively() {
    let mut sys = system();
    let pid = p_handle::find_process_by_name(&mut sys, "target.EXE").unwrap();
    assert_eq!(pid, 200);
    assert!(!sys.probed.contains(&0));
    assert_eq!(sys.probed, vec![100, 200]);
}

#[test]
fn find_by_name_not_found() {
    let mut sys = system();
    match p_handle::find_process_by_name(&mut sys, "absent.exe") {
        Err(mm_error::ProcessNotFound(n)) => assert_eq!(n, "absent.exe"),
        other => panic!("expected not-found, got {:?}", other),
    }
}

#[test]
fn find_by_name_surfaces_enumeration_failure() {
    let mut sys = system();
    sys.enum_fail = Some(-5);
    match p_handle::find_process_by_name(&mut sys, "Target.exe") {
        Err(e @ mm_error::ProcessEnumFailed(code)) => {
            assert_eq!(code, -5);
            assert_eq!(e.ntstatus(), Some(-5));
        },
        other => panic!("expected an enumeration failure, got {:?}", other),
    }
}

#[test]
fn handle_valid_after_open_invalid_after_close() {
    let mut sys = system();
    let mut h = p_handle::open_by_pid(&mut sys, 200).unwrap();
    assert!(h.is_valid());
    assert_eq!(h.as_raw(), MOCK_PROCESS_HANDLE);
    h.close(&mut sys);
    assert!(!h.is_valid());
    // a released handle's subsequent use always fails
    assert!(matches!(h.enumerate_modules(&mut sys), Err(mm_error::InvalidHandle)));
    // closing again stays a no-op
    h.close(&mut sys);
    assert!(!h.is_valid());
}

#[test]
fn open_fails_for_zero_pid() {
    let mut sys = system();
    assert!(matches!(
        p_handle::open_by_pid(&mut sys, 0),
        Err(mm_error::ProcessOpenFailed(_))
    ));
}

#[test]
fn enumerate_modules_keeps_only_fully_resolved_entries() {
    let mut sys = system();
    let h = p_handle::open_by_pid(&mut sys, 200).unwrap();
    let mods = h.enumerate_modules(&mut sys).unwrap();
    assert_eq!(mods.len(), 2);
    assert_eq!(mods[0].name, "App.exe");
    assert_eq!(mods[0].addy, 0x40_0000);
    assert_eq!(mods[0].size, 0x1000);
    assert_eq!(mods[0].entry_point, 0x40_1000);
    assert_eq!(mods[1].name, "Lib.dll");
    assert_eq!(mods[1].addy, 0x7FF0_0000);
}

#[test]
fn module_base_lookup_is_case_insensitive() {
    let mut sys = system();
    let h = p_handle::open_by_pid(&mut sys, 200).unwrap();
    assert_eq!(h.get_module_base(&mut sys, "LIB.DLL").unwrap(), 0x7FF0_0000);
    assert_eq!(h.get_module_base(&mut sys, "app.EXE").unwrap(), 0x40_0000);
    match h.get_module_base(&mut sys, "missing.dll") {
        Err(mm_error::ModuleNotFound(n)) => assert_eq!(n, "missing.dll"),
        other => panic!("expected module-not-found, got {:?}", other),
    }
}

#[test]
fn find_by_name_returns_first_match() {
    let mut sys = MockSystem {
        pids: vec![0, 100, 200],
        names: vec![
            (100, String::from("twin.exe")),
            (200, String::from("TWIN.exe")),
        ],
        modules: Vec::new(),
        probed: Vec::new(),
        enum_fail: None,
    };
    assert_eq!(p_handle::find_process_by_name(&mut sys, "Twin.EXE").unwrap(), 100);
    assert_eq!(sys.probed, vec![100]);
}

#[test]
fn module_base_lookup_first_match_wins() {
    let mut sys = MockSystem {
        pids: vec![200],
        names: vec![(200, String::from("Target.exe"))],
        modules: vec![
            ModuleProbe {
                name: Some(String::from("dup.dll")),
                meta: Some((0x1000_0000, 0x1000, 0x1000_0000)),
            },
            ModuleProbe { name: Some(String::from("skip.dll")), meta: None },
            ModuleProbe {
                name: Some(String::from("DUP.dll")),
                meta: Some((0x2000_0000, 0x1000, 0x2000_0000)),
            },
        ],
        probed: Vec::new(),
        enum_fail: None,
    };
    let h = p_handle::open_by_pid(&mut sys, 200).unwrap();
    // the first fold-equal resolved entry wins
    assert_eq!(h.get_module_base(&mut sys, "dup.DLL").unwrap(), 0x1000_0000);
}

#[test]
fn mouse_types_construct() {
    let _m = Mouse::new();
    let p = Point { x: 3, y: -4 };
    assert_eq!(p, Point { x: 3, y: -4 });
    assert!(matches!(MouseError::GetCursorFailed, MouseError::GetCursorFailed));
}
