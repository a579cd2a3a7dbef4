use eventnet::cells::Event;
use eventnet::reader::BinaryReader;
use eventnet::reader::DecodingError;
use eventnet::system::EventSystem;

fn push_u16(out: &mut Vec<u8>, v: u16) {
    out.push((v & 0xFF) as u8);
    out.push((v >> 8) as u8);
}

fn push_u32(out: &mut Vec<u8>, v: u32) {
    out.push((v & 0xFF) as u8);
    out.push(((v >> 8) & 0xFF) as u8);
    out.push(((v >> 16) & 0xFF) as u8);
    out.push(((v >> 24) & 0xFF) as u8);
}

fn push_i32(out: &mut Vec<u8>, v: i32) {
    push_u32(out, v as u32);
}

fn push_input_record(out: &mut Vec<u8>, id: u16, connections: &[(u16, u16)]) {
    push_u16(out, id);
    push_u16(out, 0); // no name bytes
    push_u16(out, connections.len() as u16);
    for &(cell_id, port) in connections {
        push_u16(out, cell_id);
        push_u16(out, port);
    }
}

fn push_out_port(out: &mut Vec<u8>, connections: &[(u16, u16)]) {
    push_u16(out, connections.len() as u16);
    for &(cell_id, port) in connections {
        push_u16(out, cell_id);
        push_u16(out, port);
    }
}

/// A small lamp-controller netlist: a Bool gate (cell 0) in front of
/// external output port 3, fed by a Levels cell (cell 1) with levels
/// [0, 1000, 3000]. Pin 0 advances the Levels cell ("ON"), pin 1 resets the
/// Bool cell ("OFF"), software address 10 writes straight through it.
fn example1_bytes() -> Vec<u8> {
    let mut b = Vec::new();
    push_u16(&mut b, 2); // pin inputs
    push_input_record(&mut b, 0, &[(1, 0)]);
    push_input_record(&mut b, 1, &[(0, 1)]);
    push_u16(&mut b, 1); // software inputs
    push_input_record(&mut b, 10, &[(0, 2)]);
    push_u32(&mut b, 2); // cells
    // cell 0: Bool, one output to the external sink at port 3
    push_u16(&mut b, 3);
    push_u16(&mut b, 0);
    push_u16(&mut b, 1);
    push_out_port(&mut b, &[(0xFFFF, 3)]);
    // cell 1: Levels [0, 1000, 3000], one output to cell 0 port 2
    push_u16(&mut b, 0);
    push_u16(&mut b, 3);
    push_i32(&mut b, 0);
    push_i32(&mut b, 1000);
    push_i32(&mut b, 3000);
    push_u16(&mut b, 1);
    push_out_port(&mut b, &[(0, 2)]);
    b
}

fn apply(out_values: &mut [i32; 8], events: &[(u16, Event)]) {
    for &(port, event) in events {
        println!("Got event {} {}", port, event.value);
        assert!(port < 8);
        out_values[port as usize] = event.value;
    }
}

#[test]
fn example1_case1() {
    let netlist = example1_bytes();
    let mut dut = EventSystem::from_netlist(&netlist).unwrap();

    let mut output_values = [0i32; 8];

    let events = dut.init();
    apply(&mut output_values, &events);

    let events = dut.process_sw_event(10, 12);
    apply(&mut output_values, &events);
    assert_eq!(output_values[3], 12);

    let events = dut.process_hw_event(1, 1);
    apply(&mut output_values, &events);
    assert_eq!(output_values[3], 0);

    // Press "ON" button
    let events = dut.process_hw_event(0, 1);
    apply(&mut output_values, &events);
    assert_eq!(output_values[3], 1000);

    // Press "ON" button again
    let events = dut.process_hw_event(0, 1);
    apply(&mut output_values, &events);
    assert_eq!(output_values[3], 3000);

    // Press "OFF" button
    let events = dut.process_hw_event(1, 1);
    apply(&mut output_values, &events);
    assert_eq!(output_values[3], 0);
}

#[test]
fn decoded_sizes_respect_limits() {
    let sys = EventSystem::from_netlist(&example1_bytes()).unwrap();
    assert!(sys.input_ports.len() <= 32);
    assert!(sys.software_ports.len() <= 256);
    assert!(sys.cells.len() <= 256);
    assert_eq!(sys.input_ports.len(), 2);
    assert_eq!(sys.software_ports.len(), 1);
    assert_eq!(sys.cells.len(), 2);
}

#[test]
fn every_truncation_is_insufficient_bytes() {
    let full = example1_bytes();
    assert!(EventSystem::from_netlist(&full).is_ok());
    for cut in 0..full.len() {
        match EventSystem::from_netlist(&full[..cut]) {
            Err(DecodingError::InsufficientBytes) => {}
            other => panic!("cut at {} gave {:?}", cut, other.map(|_| ())),
        }
    }
}

#[test]
fn trailing_bytes_are_tolerated() {
    let mut full = example1_bytes();
    full.push(0xAB);
    full.push(0xCD);
    assert!(EventSystem::from_netlist(&full).is_ok());
}

#[test]
fn too_many_pin_inputs() {
    let mut b = Vec::new();
    push_u16(&mut b, 33);
    assert!(matches!(
        EventSystem::from_netlist(&b),
        Err(DecodingError::CountTooLarge)
    ));
}

#[test]
fn too_many_software_inputs() {
    let mut b = Vec::new();
    push_u16(&mut b, 0);
    push_u16(&mut b, 257);
    assert!(matches!(
        EventSystem::from_netlist(&b),
        Err(DecodingError::CountTooLarge)
    ));
}

#[test]
fn too_many_cells() {
    let mut b = Vec::new();
    push_u16(&mut b, 0);
    push_u16(&mut b, 0);
    push_u32(&mut b, 257);
    assert!(matches!(
        EventSystem::from_netlist(&b),
        Err(DecodingError::CountTooLarge)
    ));
}

#[test]
fn too_many_params() {
    let mut b = Vec::new();
    push_u16(&mut b, 0);
    push_u16(&mut b, 0);
    push_u32(&mut b, 1);
    push_u16(&mut b, 0); // Levels
    push_u16(&mut b, 257);
    assert!(matches!(
        EventSystem::from_netlist(&b),
        Err(DecodingError::CountTooLarge)
    ));
}

#[test]
fn too_many_outputs() {
    let mut b = Vec::new();
    push_u16(&mut b, 0);
    push_u16(&mut b, 0);
    push_u32(&mut b, 1);
    push_u16(&mut b, 0); // Levels
    push_u16(&mut b, 0); // no params
    push_u16(&mut b, 257);
    assert!(matches!(
        EventSystem::from_netlist(&b),
        Err(DecodingError::CountTooLarge)
    ));
}

#[test]
fn too_many_connections() {
    let mut b = Vec::new();
    push_u16(&mut b, 0);
    push_u16(&mut b, 0);
    push_u32(&mut b, 1);
    push_u16(&mut b, 0); // Levels
    push_u16(&mut b, 0); // no params
    push_u16(&mut b, 1); // one output port
    push_u16(&mut b, 257); // with too many connections
    assert!(matches!(
        EventSystem::from_netlist(&b),
        Err(DecodingError::CountTooLarge)
    ));
}

#[test]
fn unknown_typecode_is_bad_primitive() {
    let mut b = Vec::new();
    push_u16(&mut b, 0);
    push_u16(&mut b, 0);
    push_u32(&mut b, 1);
    push_u16(&mut b, 0x1234);
    push_u16(&mut b, 0); // no params
    push_u16(&mut b, 0); // no outputs
    assert!(matches!(
        EventSystem::from_netlist(&b),
        Err(DecodingError::BadPrimitive)
    ));
}

fn mux_netlist(n_params: u16) -> Vec<u8> {
    let mut b = Vec::new();
    push_u16(&mut b, 0);
    push_u16(&mut b, 0);
    push_u32(&mut b, 1);
    push_u16(&mut b, 1); // Mux
    push_u16(&mut b, n_params);
    for _ in 0..n_params {
        push_i32(&mut b, 1);
    }
    push_u16(&mut b, 1);
    push_out_port(&mut b, &[(0xFFFF, 0)]);
    b
}

#[test]
fn mux_wrong_param_count_is_bad_primitive() {
    assert!(matches!(
        EventSystem::from_netlist(&mux_netlist(0)),
        Err(DecodingError::BadPrimitive)
    ));
    assert!(matches!(
        EventSystem::from_netlist(&mux_netlist(2)),
        Err(DecodingError::BadPrimitive)
    ));
    assert!(EventSystem::from_netlist(&mux_netlist(1)).is_ok());
}

#[test]
fn lifo_delivery_order() {
    // One Bool cell whose single output fans out to external ports 0 and 1,
    // in that listed order: the later-listed connection must deliver first.
    let mut b = Vec::new();
    push_u16(&mut b, 1);
    push_input_record(&mut b, 7, &[(0, 0)]);
    push_u16(&mut b, 0);
    push_u32(&mut b, 1);
    push_u16(&mut b, 3); // Bool
    push_u16(&mut b, 0);
    push_u16(&mut b, 1);
    push_out_port(&mut b, &[(0xFFFF, 0), (0xFFFF, 1)]);
    let mut dut = EventSystem::from_netlist(&b).unwrap();
    let _ = dut.init();
    let events = dut.process_hw_event(7, 1); // SET: Bool emits 1 to both
    assert_eq!(events.len(), 2);
    assert_eq!(events[0].0, 1);
    assert_eq!(events[0].1.value, 1);
    assert_eq!(events[1].0, 0);
    assert_eq!(events[1].1.value, 1);
}

/// One Bool cell with its pass-through port on pin 2, SET on pin 0 and
/// RESET on pin 1, emitting to external port 0.
fn bool_netlist() -> Vec<u8> {
    let mut b = Vec::new();
    push_u16(&mut b, 3);
    push_input_record(&mut b, 0, &[(0, 0)]);
    push_input_record(&mut b, 1, &[(0, 1)]);
    push_input_record(&mut b, 2, &[(0, 2)]);
    push_u16(&mut b, 0);
    push_u32(&mut b, 1);
    push_u16(&mut b, 3); // Bool
    push_u16(&mut b, 0);
    push_u16(&mut b, 1);
    push_out_port(&mut b, &[(0xFFFF, 0)]);
    b
}

#[test]
fn bool_pass_through_is_repeatable() {
    let mut dut = EventSystem::from_netlist(&bool_netlist()).unwrap();
    let _ = dut.init();
    let first = dut.process_hw_event(2, 42);
    let second = dut.process_hw_event(2, 42);
    assert_eq!(first.len(), 1);
    assert_eq!(first.len(), second.len());
    assert_eq!(first[0].0, second[0].0);
    assert_eq!(first[0].1.value, second[0].1.value);
    assert_eq!(first[0].1.value, 42);
}

#[test]
fn bool_set_and_reset() {
    let mut dut = EventSystem::from_netlist(&bool_netlist()).unwrap();
    let _ = dut.init();
    let set = dut.process_hw_event(0, 99);
    assert_eq!(set.len(), 1);
    assert_eq!(set[0].1.value, 1);
    let reset = dut.process_hw_event(1, 99);
    assert_eq!(reset.len(), 1);
    assert_eq!(reset[0].1.value, 0);
}

/// A single Levels cell with the given levels; pin 0 advances, pin 1 moves
/// back; the output goes to external port 0.
fn levels_netlist(levels: &[i32]) -> Vec<u8> {
    let mut b = Vec::new();
    push_u16(&mut b, 2);
    push_input_record(&mut b, 0, &[(0, 0)]);
    push_input_record(&mut b, 1, &[(0, 1)]);
    push_u16(&mut b, 0);
    push_u32(&mut b, 1);
    push_u16(&mut b, 0); // Levels
    push_u16(&mut b, levels.len() as u16);
    for &v in levels {
        push_i32(&mut b, v);
    }
    push_u16(&mut b, 1);
    push_out_port(&mut b, &[(0xFFFF, 0)]);
    b
}

#[test]
fn levels_full_cycle_returns_to_start() {
    let mut dut = EventSystem::from_netlist(&levels_netlist(&[5, 6, 7])).unwrap();
    let init_events = dut.init();
    assert_eq!(init_events.len(), 1);
    assert_eq!(init_events[0].1.value, 5);
    // |L| = 3 pulses: emits 6, 7, then 5 again — the cursor is back.
    let seen: Vec<i32> = (0..3)
        .map(|_| dut.process_hw_event(0, 1)[0].1.value)
        .collect();
    assert_eq!(seen, vec![6, 7, 5]);
    // The next pulse emits 6 again, exactly as the first did.
    assert_eq!(dut.process_hw_event(0, 1)[0].1.value, 6);
}

#[test]
fn levels_decrement_wraps() {
    let mut dut = EventSystem::from_netlist(&levels_netlist(&[5, 6, 7])).unwrap();
    let _ = dut.init();
    // From 0, moving back wraps to the last level.
    let back = dut.process_hw_event(1, 1);
    assert_eq!(back[0].1.value, 7);
    let back = dut.process_hw_event(1, 1);
    assert_eq!(back[0].1.value, 6);
}

#[test]
fn empty_levels_is_inert() {
    let mut dut = EventSystem::from_netlist(&levels_netlist(&[])).unwrap();
    let init_events = dut.init();
    assert!(init_events.is_empty());
    assert!(dut.process_hw_event(0, 1).is_empty());
    assert!(dut.process_hw_event(1, 1).is_empty());
}

#[test]
fn levels_ignores_zero_value() {
    let mut dut = EventSystem::from_netlist(&levels_netlist(&[5, 6, 7])).unwrap();
    let _ = dut.init();
    // A zero-valued event is no bang: no emission, no cursor movement.
    assert!(dut.process_hw_event(0, 0).is_empty());
    assert_eq!(dut.process_hw_event(0, 1)[0].1.value, 6);
}

/// A single Mux with `n` data inputs: pins 0..n hit the data ports, pin 100
/// hits the select port; the output goes to external port 0.
fn mux_wired_netlist(n: u16) -> Vec<u8> {
    let mut b = Vec::new();
    push_u16(&mut b, n + 1);
    for p in 0..n {
        push_input_record(&mut b, p, &[(0, p)]);
    }
    push_input_record(&mut b, 100, &[(0, n)]);
    push_u16(&mut b, 0);
    push_u32(&mut b, 1);
    push_u16(&mut b, 1); // Mux
    push_u16(&mut b, 1);
    push_i32(&mut b, n as i32);
    push_u16(&mut b, 1);
    push_out_port(&mut b, &[(0xFFFF, 0)]);
    b
}

#[test]
fn mux_latches_and_selects() {
    let mut dut = EventSystem::from_netlist(&mux_wired_netlist(2)).unwrap();
    let _ = dut.init();
    // Writing data input 0 emits it: select starts at 0.
    let ev = dut.process_hw_event(0, 11);
    assert_eq!(ev.len(), 1);
    assert_eq!(ev[0].1.value, 11);
    // Writing data input 1 re-emits the selected input 0.
    let ev = dut.process_hw_event(1, 22);
    assert_eq!(ev[0].1.value, 11);
    // Selecting input 1 emits its latched value.
    let ev = dut.process_hw_event(100, 1);
    assert_eq!(ev[0].1.value, 22);
    // An out-of-range selection silences the cell.
    assert!(dut.process_hw_event(100, 5).is_empty());
}

#[test]
fn mux_with_no_inputs_never_emits() {
    let mut dut = EventSystem::from_netlist(&mux_wired_netlist(0)).unwrap();
    assert!(dut.init().is_empty());
    // Pin 100 hits the select port (port 0 on an empty Mux); still nothing.
    assert!(dut.process_hw_event(100, 0).is_empty());
    assert!(dut.process_hw_event(100, 3).is_empty());
}

/// A single Demux with two output ports (external ports 0 and 1): pin 0
/// carries data, pin 1 selects.
fn demux_netlist() -> Vec<u8> {
    let mut b = Vec::new();
    push_u16(&mut b, 2);
    push_input_record(&mut b, 0, &[(0, 0)]);
    push_input_record(&mut b, 1, &[(0, 1)]);
    push_u16(&mut b, 0);
    push_u32(&mut b, 1);
    push_u16(&mut b, 2); // Demux
    push_u16(&mut b, 0);
    push_u16(&mut b, 2);
    push_out_port(&mut b, &[(0xFFFF, 0)]);
    push_out_port(&mut b, &[(0xFFFF, 1)]);
    b
}

#[test]
fn demux_routes_by_selection() {
    let mut dut = EventSystem::from_netlist(&demux_netlist()).unwrap();
    let _ = dut.init();
    let ev = dut.process_hw_event(0, 42);
    assert_eq!(ev.len(), 1);
    assert_eq!(ev[0].0, 0);
    assert_eq!(ev[0].1.value, 42);
    // Select output 1 and send again.
    assert!(dut.process_hw_event(1, 1).is_empty());
    let ev = dut.process_hw_event(0, 43);
    assert_eq!(ev.len(), 1);
    assert_eq!(ev[0].0, 1);
    assert_eq!(ev[0].1.value, 43);
}

#[test]
fn demux_out_of_range_selection_drops_data() {
    let mut dut = EventSystem::from_netlist(&demux_netlist()).unwrap();
    let _ = dut.init();
    assert!(dut.process_hw_event(1, 7).is_empty()); // select out of range
    assert!(dut.process_hw_event(0, 42).is_empty()); // data dropped
    assert!(dut.process_hw_event(1, 0).is_empty()); // back in range
    assert_eq!(dut.process_hw_event(0, 42).len(), 1);
}

#[test]
fn unknown_pin_and_address_are_no_ops() {
    let mut dut = EventSystem::from_netlist(&example1_bytes()).unwrap();
    let _ = dut.init();
    assert!(dut.process_hw_event(99, 1).is_empty());
    assert!(dut.process_sw_event(99, 1).is_empty());
    // The system still behaves as before.
    let ev = dut.process_sw_event(10, 12);
    assert_eq!(ev.len(), 1);
    assert_eq!(ev[0].1.value, 12);
}

#[test]
fn same_stimulus_same_outputs() {
    // Two systems decoded from the same bytes, driven with the same
    // stimulus sequence, deliver identical events.
    let run = || {
        let mut dut = EventSystem::from_netlist(&example1_bytes()).unwrap();
        let mut log: Vec<(u16, i32)> = Vec::new();
        for (p, e) in dut.init() {
            log.push((p, e.value));
        }
        for (p, e) in dut.process_sw_event(10, 12) {
            log.push((p, e.value));
        }
        for (p, e) in dut.process_hw_event(0, 1) {
            log.push((p, e.value));
        }
        log
    };
    assert_eq!(run(), run());
}

#[test]
fn reader_reads_little_endian() {
    let data = [0x34u8, 0x12, 0x78, 0x56, 0x34, 0x12, 0xFF, 0xFF, 0xFF, 0xFF, 0x00];
    let mut rdr = BinaryReader::new(&data);
    assert_eq!(rdr.remaining(), 11);
    assert_eq!(rdr.read_u16(), Ok(0x1234));
    assert_eq!(rdr.read_u32(), Ok(0x12345678));
    assert_eq!(rdr.read_i32(), Ok(-1));
    assert_eq!(rdr.remaining(), 1);
    assert!(rdr.skip(1).is_ok());
    assert_eq!(rdr.remaining(), 0);
    assert_eq!(rdr.read_u16(), Err(DecodingError::InsufficientBytes));
    assert_eq!(rdr.skip(1), Err(DecodingError::InsufficientBytes));
}
