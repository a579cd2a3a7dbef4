//! The event system: the decoder that materialises a netlist from bytes,
//! and the stimulus entry points that drive events through the graph.

use vstd::prelude::*;

use crate::cells::Cell;
use crate::cells::Connection;
use crate::cells::Event;
use crate::cells::Primitive;
use crate::cells::PrimitiveDescriptor;
use crate::cells::build_primitive;
use crate::cells::cell_init;
use crate::cells::emit_all;
use crate::cells::fan_out;
use crate::cells::DescriptorModel;
use crate::cells::MAX_PARAMETERS;
use crate::engine::cells_all_wf;
use crate::engine::cells_view;
use crate::engine::drain;
use crate::engine::engine_run;
use crate::engine::init_stack;
use crate::parse::InputModel;
use crate::parse::SystemModel;
use crate::parse::MAX_CELLS;
use crate::parse::MAX_CONNECTIONS;
use crate::parse::MAX_INPUT_PORTS;
use crate::parse::MAX_OUTPUTS;
use crate::parse::MAX_SOFTWARE_PORTS;
use crate::parse::parse_cell;
use crate::parse::parse_cells;
use crate::parse::parse_connections;
use crate::parse::parse_input_records;
use crate::parse::parse_netlist;
use crate::parse::parse_out_port;
use crate::parse::parse_out_ports;
use crate::parse::parse_params;
use crate::reader::BinaryReader;
use crate::reader::DecodingError;

verus! {

/// A hardware pin input: a degenerate primitive whose only action on a
/// stimulus is to fan the incoming event out to every connection.
pub struct PinInput {
    pub pin: u16,
    pub connections: Vec<Connection>,
}

impl View for PinInput {
    type V = InputModel;

    open spec fn view(&self) -> InputModel {
        InputModel { id: self.pin, connections: self.connections@ }
    }
}

impl Primitive for PinInput {
    open spec fn inv(m: InputModel) -> bool {
        true
    }

    open spec fn init_model(m: InputModel) -> Seq<(Connection, Event)> {
        Seq::<(Connection, Event)>::empty()
    }

    open spec fn dispatch_model(m: InputModel, port: u16, event: Event) -> (
        InputModel,
        Seq<(Connection, Event)>,
    ) {
        (m, emit_all(m.connections, event))
    }

    fn init(&mut self) -> (out: Vec<(Connection, Event)>) {
        Vec::new()
    }

    fn dispatch(&mut self, port: u16, event: Event) -> (out: Vec<(Connection, Event)>) {
        fan_out(&self.connections, event)
    }
}

/// A software input: functionally the same as a pin input, addressed by a
/// logical address instead of a physical pin id.
pub struct SoftwareInput {
    pub addr: u16,
    pub connections: Vec<Connection>,
}

impl View for SoftwareInput {
    type V = InputModel;

    open spec fn view(&self) -> InputModel {
        InputModel { id: self.addr, connections: self.connections@ }
    }
}

impl Primitive for SoftwareInput {
    open spec fn inv(m: InputModel) -> bool {
        true
    }

    open spec fn init_model(m: InputModel) -> Seq<(Connection, Event)> {
        Seq::<(Connection, Event)>::empty()
    }

    open spec fn dispatch_model(m: InputModel, port: u16, event: Event) -> (
        InputModel,
        Seq<(Connection, Event)>,
    ) {
        (m, emit_all(m.connections, event))
    }

    fn init(&mut self) -> (out: Vec<(Connection, Event)>) {
        Vec::new()
    }

    fn dispatch(&mut self, port: u16, event: Event) -> (out: Vec<(Connection, Event)>) {
        fan_out(&self.connections, event)
    }
}

/// The abstract states of a sequence of viewable values.
pub open spec fn views_of<T: View>(v: Seq<T>) -> Seq<T::V> {
    Seq::new(v.len(), |i: int| v[i]@)
}

/// Prepends an already-parsed head onto the outcome of parsing the rest of
/// a list.
pub open spec fn combine<T>(acc: Seq<T>, r: Result<(Seq<T>, int), DecodingError>) -> Result<
    (Seq<T>, int),
    DecodingError,
> {
    match r {
        Ok(p) => Ok((acc + p.0, p.1)),
        Err(e) => Err(e),
    }
}

/// Reads `n` connection entries, as `parse_connections` says.
#[verifier::loop_isolation(false)]
fn read_connection_list(rdr: &mut BinaryReader, n: usize) -> (r: Result<
    Vec<Connection>,
    DecodingError,
>)
    requires
        old(rdr).wf(),
    ensures
        final(rdr).wf(),
        final(rdr).bytes() == old(rdr).bytes(),
        match parse_connections(old(rdr).bytes(), old(rdr).pos as int, n as nat) {
            Ok(p) => r matches Ok(v) && v@ == p.0 && final(rdr).pos == p.1,
            Err(e) => r == Err::<Vec<Connection>, DecodingError>(e),
        },
{
    let ghost b = rdr.bytes();
    let ghost pos0 = rdr.pos as int;
    let mut connections: Vec<Connection> = Vec::new();
    let mut i: usize = 0;
    while i < n
        invariant
            i <= n,
            rdr.wf(),
            rdr.bytes() == b,
            combine(connections@, parse_connections(b, rdr.pos as int, (n - i) as nat))
                == parse_connections(b, pos0, n as nat),
        decreases n - i,
    {
        let ghost acc0 = connections@;
        let cell_id = match rdr.read_u16() {
            Ok(v) => v,
            Err(e) => {
                return Err(e);
            },
        };
        let port = match rdr.read_u16() {
            Ok(v) => v,
            Err(e) => {
                return Err(e);
            },
        };
        let c = Connection { cell_id, port };
        connections.push(c);
        proof {
            let rest = parse_connections(b, rdr.pos as int, (n - i - 1) as nat);
            match rest {
                Ok(p) => {
                    assert(acc0 + (seq![c] + p.0) =~= acc0.push(c) + p.0);
                },
                Err(_) => {},
            }
        }
        i = i + 1;
    }
    Ok(connections)
}

/// Reads `n` input records, as `parse_input_records` says. The record name
/// bytes are skipped, never interpreted.
#[verifier::loop_isolation(false)]
fn read_input_list(rdr: &mut BinaryReader, n: usize) -> (r: Result<Vec<PinInput>, DecodingError>)
    requires
        old(rdr).wf(),
    ensures
        final(rdr).wf(),
        final(rdr).bytes() == old(rdr).bytes(),
        match parse_input_records(old(rdr).bytes(), old(rdr).pos as int, n as nat) {
            Ok(p) => r matches Ok(v) && views_of(v@) == p.0 && final(rdr).pos == p.1,
            Err(e) => r == Err::<Vec<PinInput>, DecodingError>(e),
        },
{
    let ghost b = rdr.bytes();
    let ghost pos0 = rdr.pos as int;
    let mut inputs: Vec<PinInput> = Vec::new();
    let mut i: usize = 0;
    while i < n
        invariant
            i <= n,
            rdr.wf(),
            rdr.bytes() == b,
            combine(views_of(inputs@), parse_input_records(b, rdr.pos as int, (n - i) as nat))
                == parse_input_records(b, pos0, n as nat),
        decreases n - i,
    {
        let ghost acc0 = views_of(inputs@);
        let input_id = match rdr.read_u16() {
            Ok(v) => v,
            Err(e) => {
                return Err(e);
            },
        };
        let name_size = match rdr.read_u16() {
            Ok(v) => v,
            Err(e) => {
                return Err(e);
            },
        };
        match rdr.skip(name_size as usize) {
            Ok(_) => {},
            Err(e) => {
                return Err(e);
            },
        };
        let n_connections = match rdr.read_u16() {
            Ok(v) => v,
            Err(e) => {
                return Err(e);
            },
        };
        let connections = match read_connection_list(rdr, n_connections as usize) {
            Ok(v) => v,
            Err(e) => {
                return Err(e);
            },
        };
        let rec = PinInput { pin: input_id, connections };
        inputs.push(rec);
        proof {
            let rest = parse_input_records(b, rdr.pos as int, (n - i - 1) as nat);
            assert(views_of(inputs@) =~= acc0.push(rec@));
            match rest {
                Ok(p) => {
                    assert(acc0 + (seq![rec@] + p.0) =~= acc0.push(rec@) + p.0);
                },
                Err(_) => {},
            }
        }
        i = i + 1;
    }
    Ok(inputs)
}

/// Reads the parameter list of a cell record, as `parse_params` says.
#[verifier::loop_isolation(false)]
fn read_params(rdr: &mut BinaryReader, n: usize) -> (r: Result<Vec<i32>, DecodingError>)
    requires
        old(rdr).wf(),
    ensures
        final(rdr).wf(),
        final(rdr).bytes() == old(rdr).bytes(),
        match parse_params(old(rdr).bytes(), old(rdr).pos as int, n as nat) {
            Ok(p) => r matches Ok(v) && v@ == p.0 && final(rdr).pos == p.1,
            Err(e) => r == Err::<Vec<i32>, DecodingError>(e),
        },
        (r matches Ok(v) ==> v@.len() == n),
{
    let ghost b = rdr.bytes();
    let ghost pos0 = rdr.pos as int;
    let mut params: Vec<i32> = Vec::new();
    let mut i: usize = 0;
    while i < n
        invariant
            i <= n,
            rdr.wf(),
            rdr.bytes() == b,
            params@.len() == i,
            combine(params@, parse_params(b, rdr.pos as int, (n - i) as nat)) == parse_params(
                b,
                pos0,
                n as nat,
            ),
        decreases n - i,
    {
        let ghost acc0 = params@;
        let v = match rdr.read_i32() {
            Ok(v) => v,
            Err(e) => {
                return Err(e);
            },
        };
        params.push(v);
        proof {
            let rest = parse_params(b, rdr.pos as int, (n - i - 1) as nat);
            match rest {
                Ok(p) => {
                    assert(acc0 + (seq![v] + p.0) =~= acc0.push(v) + p.0);
                },
                Err(_) => {},
            }
        }
        i = i + 1;
    }
    Ok(params)
}

/// Reads one output port of a cell record (a checked connection count and
/// the connection list), as `parse_out_port` says.
fn read_out_port(rdr: &mut BinaryReader) -> (r: Result<Vec<Connection>, DecodingError>)
    requires
        old(rdr).wf(),
    ensures
        final(rdr).wf(),
        final(rdr).bytes() == old(rdr).bytes(),
        match parse_out_port(old(rdr).bytes(), old(rdr).pos as int) {
            Ok(p) => r matches Ok(v) && v@ == p.0 && final(rdr).pos == p.1,
            Err(e) => r == Err::<Vec<Connection>, DecodingError>(e),
        },
{
    let n_connections = match rdr.read_u16() {
        Ok(v) => v,
        Err(e) => {
            return Err(e);
        },
    };
    if n_connections > MAX_CONNECTIONS {
        return Err(DecodingError::CountTooLarge);
    }
    read_connection_list(rdr, n_connections as usize)
}

/// Reads the output port list of a cell record, as `parse_out_ports` says.
#[verifier::loop_isolation(false)]
fn read_out_ports(rdr: &mut BinaryReader, n: usize) -> (r: Result<
    Vec<Vec<Connection>>,
    DecodingError,
>)
    requires
        old(rdr).wf(),
    ensures
        final(rdr).wf(),
        final(rdr).bytes() == old(rdr).bytes(),
        match parse_out_ports(old(rdr).bytes(), old(rdr).pos as int, n as nat) {
            Ok(p) => r matches Ok(v) && views_of(v@) == p.0 && final(rdr).pos == p.1,
            Err(e) => r == Err::<Vec<Vec<Connection>>, DecodingError>(e),
        },
{
    let ghost b = rdr.bytes();
    let ghost pos0 = rdr.pos as int;
    let mut outputs: Vec<Vec<Connection>> = Vec::new();
    let mut i: usize = 0;
    while i < n
        invariant
            i <= n,
            rdr.wf(),
            rdr.bytes() == b,
            combine(views_of(outputs@), parse_out_ports(b, rdr.pos as int, (n - i) as nat))
                == parse_out_ports(b, pos0, n as nat),
        decreases n - i,
    {
        let ghost acc0 = views_of(outputs@);
        let port = match read_out_port(rdr) {
            Ok(v) => v,
            Err(e) => {
                return Err(e);
            },
        };
        let ghost pv = port@;
        outputs.push(port);
        proof {
            let rest = parse_out_ports(b, rdr.pos as int, (n - i - 1) as nat);
            assert(views_of(outputs@) =~= acc0.push(pv));
            match rest {
                Ok(p) => {
                    assert(acc0 + (seq![pv] + p.0) =~= acc0.push(pv) + p.0);
                },
                Err(_) => {},
            }
        }
        i = i + 1;
    }
    Ok(outputs)
}

/// Reads one cell record and builds its cell through the factory, as
/// `parse_cell` says.
fn read_cell(rdr: &mut BinaryReader) -> (r: Result<Cell, DecodingError>)
    requires
        old(rdr).wf(),
    ensures
        final(rdr).wf(),
        final(rdr).bytes() == old(rdr).bytes(),
        match parse_cell(old(rdr).bytes(), old(rdr).pos as int) {
            Ok(p) => r matches Ok(c) && c@ == p.0 && crate::cells::cell_wf(c@) && final(rdr).pos
                == p.1,
            Err(e) => r == Err::<Cell, DecodingError>(e),
        },
{
    let cell_type = match rdr.read_u16() {
        Ok(v) => v,
        Err(e) => {
            return Err(e);
        },
    };
    let n_params = match rdr.read_u16() {
        Ok(v) => v,
        Err(e) => {
            return Err(e);
        },
    };
    if n_params > MAX_PARAMETERS {
        return Err(DecodingError::CountTooLarge);
    }
    let params = match read_params(rdr, n_params as usize) {
        Ok(v) => v,
        Err(e) => {
            return Err(e);
        },
    };
    let n_outputs = match rdr.read_u16() {
        Ok(v) => v,
        Err(e) => {
            return Err(e);
        },
    };
    if n_outputs > MAX_OUTPUTS {
        return Err(DecodingError::CountTooLarge);
    }
    let outputs = match read_out_ports(rdr, n_outputs as usize) {
        Ok(v) => v,
        Err(e) => {
            return Err(e);
        },
    };
    let cell_descriptor = PrimitiveDescriptor {
        typecode: cell_type,
        out_ports: outputs,
        params,
    };
    proof {
        assert(cell_descriptor@ =~= (DescriptorModel {
            typecode: cell_type,
            out_ports: views_of(cell_descriptor.out_ports@),
            params: cell_descriptor.params@,
        }));
    }
    match build_primitive(cell_descriptor) {
        Ok(c) => Ok(c),
        Err(_) => Err(DecodingError::BadPrimitive),
    }
}

/// The event system: pin inputs, software inputs, and the cell array (cell
/// identity is the array index). Constructed once by `from_netlist`,
/// initialised once by `init`, then driven by stimulus calls.
pub struct EventSystem {
    pub software_ports: Vec<SoftwareInput>,
    pub input_ports: Vec<PinInput>,
    pub cells: Vec<Cell>,
}

impl View for EventSystem {
    type V = SystemModel;

    open spec fn view(&self) -> SystemModel {
        SystemModel {
            pin_inputs: views_of(self.input_ports@),
            sw_inputs: views_of(self.software_ports@),
            cells: cells_view(self.cells@),
        }
    }
}

/// The first input record carrying `id`, scanning from position `i`.
pub open spec fn find_from(inputs: Seq<InputModel>, id: u16, i: nat) -> Option<int>
    decreases inputs.len() - i,
{
    if i >= inputs.len() {
        None
    } else if inputs[i as int].id == id {
        Some(i as int)
    } else {
        find_from(inputs, id, i + 1)
    }
}

/// The first input record carrying `id`, if any: how stimulus entry points
/// resolve a pin or address.
pub open spec fn find_input(inputs: Seq<InputModel>, id: u16) -> Option<int> {
    find_from(inputs, id, 0)
}

impl EventSystem {
    /// Every cell state is well-formed.
    pub open spec fn wf(self) -> bool {
        cells_all_wf(self@.cells)
    }

    /// Decodes a netlist blob, returning exactly what `parse_netlist` says
    /// of the bytes: the decoded system on success, and on failure which of
    /// `InsufficientBytes`, `CountTooLarge` or `BadPrimitive` struck first.
    #[verifier::loop_isolation(false)]
pub fn from_netlist(data: &[u8]) -> (r: Result<EventSystem, DecodingError>)
        ensures
            match parse_netlist(data@) {
                Ok(p) => r matches Ok(sys) && sys@ == p.0 && sys.wf(),
                Err(e) => r == Err::<EventSystem, DecodingError>(e),
            },
    {
        let ghost b = data@;
        let mut rdr = BinaryReader::new(data);

        // Hardware pin inputs.
        let n_pin_input = match rdr.read_u16() {
            Ok(v) => v,
            Err(e) => {
                return Err(e);
            },
        };
        if n_pin_input > MAX_INPUT_PORTS {
            return Err(DecodingError::CountTooLarge);
        }
        let pin_inputs = match read_input_list(&mut rdr, n_pin_input as usize) {
            Ok(v) => v,
            Err(e) => {
                return Err(e);
            },
        };

        // Software inputs, functionally the same as pin inputs.
        let n_sw_input = match rdr.read_u16() {
            Ok(v) => v,
            Err(e) => {
                return Err(e);
            },
        };
        if n_sw_input > MAX_SOFTWARE_PORTS {
            return Err(DecodingError::CountTooLarge);
        }
        let sw_raw = match read_input_list(&mut rdr, n_sw_input as usize) {
            Ok(v) => v,
            Err(e) => {
                return Err(e);
            },
        };
        let ghost sw_views = views_of(sw_raw@);
        let mut sw_inputs: Vec<SoftwareInput> = Vec::new();
        let mut sw_raw = sw_raw;
        let mut i: usize = 0;
        let n_sw = sw_raw.len();
        while i < n_sw
            invariant
                i <= n_sw,
                sw_raw@.len() + i == n_sw,
                views_of(sw_inputs@) + views_of(sw_raw@) == sw_views,
            decreases n_sw - i,
        {
            let ghost acc0 = views_of(sw_inputs@);
            let ghost raw0 = views_of(sw_raw@);
            let rec = sw_raw.remove(0);
            let sw = SoftwareInput { addr: rec.pin, connections: rec.connections };
            sw_inputs.push(sw);
            proof {
                assert(views_of(sw_inputs@) =~= acc0.push(sw@));
                assert(views_of(sw_raw@) =~= raw0.skip(1));
                assert(acc0.push(sw@) + raw0.skip(1) =~= (acc0 + raw0));
            }
            i = i + 1;
        }
        proof {
            assert(views_of(sw_raw@) =~= Seq::<InputModel>::empty());
            assert(views_of(sw_inputs@) + Seq::<InputModel>::empty() =~= views_of(sw_inputs@));
        }

        // Primitive cells.
        let n_cells = match rdr.read_u32() {
            Ok(v) => v,
            Err(e) => {
                return Err(e);
            },
        };
        if n_cells > MAX_CELLS {
            return Err(DecodingError::CountTooLarge);
        }
        let ghost cells_pos0 = rdr.pos as int;
        let mut cells: Vec<Cell> = Vec::new();
        let mut k: u32 = 0;
        while k < n_cells
            invariant
                k <= n_cells,
                rdr.wf(),
                rdr.bytes() == b,
                cells_all_wf(cells_view(cells@)),
                combine(cells_view(cells@), parse_cells(b, rdr.pos as int, (n_cells - k) as nat))
                    == parse_cells(b, cells_pos0, n_cells as nat),
            decreases n_cells - k,
        {
            let ghost acc0 = cells_view(cells@);
            let cell = match read_cell(&mut rdr) {
                Ok(v) => v,
                Err(e) => {
                    return Err(e);
                },
            };
            let ghost cv = cell@;
            cells.push(cell);
            proof {
                let rest = parse_cells(b, rdr.pos as int, (n_cells - k - 1) as nat);
                assert(cells_view(cells@) =~= acc0.push(cv));
                match rest {
                    Ok(p) => {
                        assert(acc0 + (seq![cv] + p.0) =~= acc0.push(cv) + p.0);
                    },
                    Err(_) => {},
                }
            }
            k = k + 1;
        }

        let sys = EventSystem { input_ports: pin_inputs, software_ports: sw_inputs, cells };
        proof {
            match parse_netlist(b) {
                Ok(p) => {
                    assert(sys@ =~= p.0);
                },
                Err(_) => {},
            }
        }
        Ok(sys)
    }

    /// One-shot initialisation: calls every cell's startup hook in
    /// declaration order, then drains the cascade; returns the events
    /// delivered to the external sink in delivery order.
    #[verifier::loop_isolation(false)]
pub fn init(&mut self) -> (out: Vec<(u16, Event)>)
        requires
            old(self).wf(),
        ensures
            final(self).wf(),
            final(self)@.pin_inputs == old(self)@.pin_inputs,
            final(self)@.sw_inputs == old(self)@.sw_inputs,
            ({
                let r = engine_run(old(self)@.cells, init_stack(old(self)@.cells));
                final(self)@.cells == r.cells && out@ == r.out
            }),
    {
        let ghost cv0 = cells_view(self.cells@);
        let mut seed: Vec<(Connection, Event)> = Vec::new();
        let mut i: usize = 0;
        let n = self.cells.len();
        while i < n
            invariant
                i <= n,
                n == self.cells.len(),
                cells_all_wf(cells_view(self.cells@)),
                cells_view(self.cells@) == cv0,
                self.input_ports@ == old(self).input_ports@,
                self.software_ports@ == old(self).software_ports@,
                seed@ == init_stack(cv0.take(i as int)),
            decreases n - i,
        {
            let ghost seed0 = seed@;
            assert(crate::cells::cell_wf(cv0[i as int]));
            let mut emitted = self.cells[i].init();
            seed.append(&mut emitted);
            proof {
                assert(cells_view(self.cells@) =~= cv0);
                assert(cv0.take(i + 1).drop_last() =~= cv0.take(i as int));
                assert(cv0.take(i + 1).last() == cv0[i as int]);
                assert(seed@ == seed0 + cell_init(cv0[i as int]));
            }
            i = i + 1;
        }
        proof {
            assert(cv0.take(n as int) =~= cv0);
        }
        drain(&mut self.cells, seed)
    }

    /// Delivers a hardware stimulus: the first pin input carrying `pin`
    /// fans `value` out to its connections and the cascade is drained;
    /// without a matching pin the call is a silent no-op.
    #[verifier::loop_isolation(false)]
pub fn process_hw_event(&mut self, pin: u16, value: i32) -> (out: Vec<(u16, Event)>)
        requires
            old(self).wf(),
        ensures
            final(self).wf(),
            final(self)@.pin_inputs == old(self)@.pin_inputs,
            final(self)@.sw_inputs == old(self)@.sw_inputs,
            match find_input(old(self)@.pin_inputs, pin) {
                None => final(self)@.cells == old(self)@.cells && out@ == Seq::<(u16, Event)>::empty(),
                Some(i) => ({
                    let r = engine_run(
                        old(self)@.cells,
                        emit_all(old(self)@.pin_inputs[i].connections, Event { value }),
                    );
                    final(self)@.cells == r.cells && out@ == r.out
                }),
            },
    {
        let ghost pins = views_of(self.input_ports@);
        let mut i: usize = 0;
        let n = self.input_ports.len();
        while i < n
            invariant
                i <= n,
                n == self.input_ports.len(),
                views_of(self.input_ports@) == pins,
                self.software_ports@ == old(self).software_ports@,
                self.cells@ == old(self).cells@,
                cells_all_wf(cells_view(self.cells@)),
                find_input(pins, pin) == find_from(pins, pin, i as nat),
            decreases n - i,
        {
            if self.input_ports[i].pin == pin {
                let seed = self.input_ports[i].dispatch(0, Event { value });
                proof {
                    assert(views_of(self.input_ports@) =~= pins);
                }
                return drain(&mut self.cells, seed);
            }
            i = i + 1;
        }
        Vec::new()
    }

    /// Delivers a software stimulus: the first software input carrying
    /// `addr` fans `value` out to its connections and the cascade is
    /// drained; without a matching address the call is a silent no-op.
    #[verifier::loop_isolation(false)]
pub fn process_sw_event(&mut self, addr: u16, value: i32) -> (out: Vec<(u16, Event)>)
        requires
            old(self).wf(),
        ensures
            final(self).wf(),
            final(self)@.pin_inputs == old(self)@.pin_inputs,
            final(self)@.sw_inputs == old(self)@.sw_inputs,
            match find_input(old(self)@.sw_inputs, addr) {
                None => final(self)@.cells == old(self)@.cells && out@ == Seq::<(u16, Event)>::empty(),
                Some(i) => ({
                    let r = engine_run(
                        old(self)@.cells,
                        emit_all(old(self)@.sw_inputs[i].connections, Event { value }),
                    );
                    final(self)@.cells == r.cells && out@ == r.out
                }),
            },
    {
        let ghost sws = views_of(self.software_ports@);
        let mut i: usize = 0;
        let n = self.software_ports.len();
        while i < n
            invariant
                i <= n,
                n == self.software_ports.len(),
                views_of(self.software_ports@) == sws,
                self.input_ports@ == old(self).input_ports@,
                self.cells@ == old(self).cells@,
                cells_all_wf(cells_view(self.cells@)),
                find_input(sws, addr) == find_from(sws, addr, i as nat),
            decreases n - i,
        {
            if self.software_ports[i].addr == addr {
                let seed = self.software_ports[i].dispatch(0, Event { value });
                proof {
                    assert(views_of(self.software_ports@) =~= sws);
                }
                return drain(&mut self.cells, seed);
            }
            i = i + 1;
        }
        Vec::new()
    }
}

} // verus!
