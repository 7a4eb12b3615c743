use nginx_lint::sdk::{
    locate_slot, payload_fits, prepare_injection, slot_payload, RuntimeLayout, Slot,
};

fn layout() -> RuntimeLayout {
    RuntimeLayout {
        imported_globals: 1,
        globals: vec![Some(0), Some(1024), Some(64)],
        exports: vec![
            ("nginx_lint_lua_script_slot".to_string(), 2),
            ("nginx_lint_lua_script_slot_max".to_string(), 3),
        ],
        segments: vec![(0, vec![9; 8]), (60, vec![0, 0, 0, 0, 0x00, 0x10, 0, 0])],
        memory_size: Some(65536),
    }
}

#[test]
fn slot_is_located_from_the_exports_and_data() {
    let slot = locate_slot(&layout()).unwrap();
    assert_eq!(
        slot,
        Slot {
            address: 1024,
            capacity: 4096,
            memory_size: 65536
        }
    );
}

#[test]
fn missing_export_is_reported() {
    let mut l = layout();
    l.exports.remove(0);
    assert_eq!(
        locate_slot(&l).unwrap_err(),
        "the runtime does not export `nginx_lint_lua_script_slot`"
    );
}

#[test]
fn imported_global_is_reported() {
    let mut l = layout();
    l.exports[1].1 = 0;
    assert_eq!(
        locate_slot(&l).unwrap_err(),
        "`nginx_lint_lua_script_slot_max` is an imported global"
    );
}

#[test]
fn non_constant_global_is_reported() {
    let mut l = layout();
    l.globals[1] = None;
    assert_eq!(
        locate_slot(&l).unwrap_err(),
        "`nginx_lint_lua_script_slot` is not a constant i32 global"
    );
    let mut l = layout();
    l.exports[0].1 = 9;
    assert_eq!(
        locate_slot(&l).unwrap_err(),
        "`nginx_lint_lua_script_slot` is not a constant i32 global"
    );
}

#[test]
fn capacity_outside_the_data_is_reported() {
    let mut l = layout();
    l.segments.pop();
    assert_eq!(
        locate_slot(&l).unwrap_err(),
        "`nginx_lint_lua_script_slot_max` points outside the runtime's data"
    );
}

#[test]
fn missing_memory_is_reported() {
    let mut l = layout();
    l.memory_size = None;
    assert_eq!(locate_slot(&l).unwrap_err(), "the runtime defines no memory");
}

#[test]
fn slot_past_the_memory_is_reported() {
    let mut l = layout();
    l.memory_size = Some(5000);
    assert_eq!(
        locate_slot(&l).unwrap_err(),
        "the script slot extends past the runtime's initial memory"
    );
    l.memory_size = Some(5120);
    assert_eq!(locate_slot(&l).unwrap().capacity, 4096);
}

#[test]
fn payload_holds_both_lengths_the_name_and_the_script() {
    let p = slot_payload("a.lua", b"return 1").unwrap();
    let mut expected = vec![8, 0, 0, 0, 5, 0, 0, 0];
    expected.extend_from_slice(b"a.lua");
    expected.extend_from_slice(b"return 1");
    assert_eq!(p, expected);
}

#[test]
fn payload_must_fit_the_slot() {
    let slot = Slot {
        address: 0,
        capacity: 16,
        memory_size: 65536,
    };
    let p = slot_payload("a.lua", b"x").unwrap();
    assert!(payload_fits(&p, &slot).is_ok());
    let p = slot_payload("a.lua", b"return 12345").unwrap();
    assert_eq!(
        payload_fits(&p, &slot).unwrap_err(),
        "the script is too large: 25 bytes with its name, and the runtime holds at most 16 bytes"
    );
}

#[test]
fn injection_rejects_an_empty_name() {
    assert_eq!(
        prepare_injection(&layout(), "", b"return 1").unwrap_err(),
        "the script name is empty"
    );
}

#[test]
fn injection_rejects_an_empty_script() {
    assert_eq!(prepare_injection(&layout(), "a.lua", b"").unwrap_err(), "the script is empty");
}

#[test]
fn injection_needs_a_slot() {
    let mut l = layout();
    l.memory_size = None;
    assert_eq!(
        prepare_injection(&l, "a.lua", b"return 1").unwrap_err(),
        "the runtime defines no memory"
    );
}

#[test]
fn injection_gives_the_slot_and_the_payload() {
    let (slot, payload) = prepare_injection(&layout(), "a.lua", b"return 1").unwrap();
    assert_eq!(slot.address, 1024);
    assert_eq!(payload, slot_payload("a.lua", b"return 1").unwrap());
}

#[test]
fn injection_rejects_a_payload_larger_than_the_slot() {
    let script = vec![b'x'; 4096];
    assert_eq!(
        prepare_injection(&layout(), "a.lua", &script).unwrap_err(),
        "the script is too large: 4109 bytes with its name, and the runtime holds at most 4096 bytes"
    );
}
