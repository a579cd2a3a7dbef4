//! The primitive cell library: the built-in stateful cells that a netlist
//! instantiates, their dispatch semantics, and the factory that validates a
//! decoded cell descriptor.

use vstd::prelude::*;

verus! {

/// A value carrier routed through the graph. Events are immutable once
/// created; they carry no timestamp and no source identity.
#[derive(Clone, Copy, Debug, PartialEq, Eq, Structural)]
pub struct Event {
    pub value: i32,
}

/// A wire endpoint. `cell_id == EXTERNAL_SINK` addresses the external output
/// sink at `port`; any other value indexes the cell array. Out-of-range cell
/// ids silently drop the event.
#[derive(Clone, Copy, Debug, PartialEq, Eq, Structural)]
pub struct Connection {
    pub cell_id: u16,
    pub port: u16,
}

/// Reserved `cell_id` meaning "deliver to the external output sink".
pub const EXTERNAL_SINK: u16 = 0xFFFF;

/// Ceiling on the number of parameters of one cell record.
pub const MAX_PARAMETERS: u16 = 256;

/// Pairs every connection of a fan-out list with the same event, in list
/// order: the emission of one cell firing.
pub open spec fn emit_all(conns: Seq<Connection>, event: Event) -> Seq<(Connection, Event)> {
    Seq::new(conns.len(), |i: int| (conns[i], event))
}

/// Builds the fan-out of `event` over `conns`, in list order.
pub(crate) fn fan_out(conns: &Vec<Connection>, event: Event) -> (out: Vec<(Connection, Event)>)
    ensures
        out@ == emit_all(conns@, event),
{
    let mut out: Vec<(Connection, Event)> = Vec::new();
    let mut i: usize = 0;
    while i < conns.len()
        invariant
            i <= conns.len(),
            out@ == emit_all(conns@, event).take(i as int),
        decreases conns.len() - i,
    {
        out.push((conns[i], event));
        proof {
            assert(out@ =~= emit_all(conns@, event).take(i + 1));
        }
        i = i + 1;
    }
    proof {
        assert(out@ =~= emit_all(conns@, event));
    }
    out
}

/// The uniform contract of a stateful cell: a one-shot `init` hook that may
/// emit startup events, and a `dispatch` entry invoked once per delivered
/// event, which updates internal state and returns the emitted events in
/// fan-out order. The spec methods give the cell's mathematical model.
pub trait Primitive: View + Sized {
    /// Well-formedness of the cell's abstract state.
    spec fn inv(m: <Self as View>::V) -> bool;

    /// What `init` emits, as a function of the abstract state.
    spec fn init_model(m: <Self as View>::V) -> Seq<(Connection, Event)>;

    /// The successor state and the emission of one dispatch.
    spec fn dispatch_model(m: <Self as View>::V, port: u16, event: Event) -> (
        <Self as View>::V,
        Seq<(Connection, Event)>,
    );

    /// Startup hook: may emit events, never changes state.
    fn init(&mut self) -> (out: Vec<(Connection, Event)>)
        requires
            Self::inv(old(self)@),
        ensures
            final(self)@ == old(self)@,
            out@ == Self::init_model(old(self)@),
    ;

    /// Delivers one event at `port`; returns the emitted events in the
    /// cell's natural fan-out order.
    fn dispatch(&mut self, port: u16, event: Event) -> (out: Vec<(Connection, Event)>)
        requires
            Self::inv(old(self)@),
        ensures
            Self::inv(final(self)@),
            final(self)@ == Self::dispatch_model(old(self)@, port, event).0,
            out@ == Self::dispatch_model(old(self)@, port, event).1,
    ;
}

/// Abstract state of a `BoolCell`: only its fan-out list (the cell itself is
/// stateless).
#[verifier::ext_equal]
pub struct BoolModel {
    pub output: Seq<Connection>,
}

/// What a Bool cell does: port 0 emits `1`, port 1 emits `0`, port 2 passes
/// the event's value through; other ports are ignored. The state never
/// changes.
pub open spec fn bool_dispatch(m: BoolModel, port: u16, event: Event) -> (
    BoolModel,
    Seq<(Connection, Event)>,
) {
    if port == 0 {
        (m, emit_all(m.output, Event { value: 1 }))
    } else if port == 1 {
        (m, emit_all(m.output, Event { value: 0 }))
    } else if port == 2 {
        (m, emit_all(m.output, event))
    } else {
        (m, Seq::<(Connection, Event)>::empty())
    }
}

/// A stateless switch cell: SET on port 0, RESET on port 1, pass-through on
/// port 2.
pub struct BoolCell {
    pub output: Vec<Connection>,
}

impl View for BoolCell {
    type V = BoolModel;

    open spec fn view(&self) -> BoolModel {
        BoolModel { output: self.output@ }
    }
}

impl Primitive for BoolCell {
    open spec fn inv(m: BoolModel) -> bool {
        true
    }

    open spec fn init_model(m: BoolModel) -> Seq<(Connection, Event)> {
        Seq::<(Connection, Event)>::empty()
    }

    open spec fn dispatch_model(m: BoolModel, port: u16, event: Event) -> (
        BoolModel,
        Seq<(Connection, Event)>,
    ) {
        bool_dispatch(m, port, event)
    }

    fn init(&mut self) -> (out: Vec<(Connection, Event)>) {
        Vec::new()
    }

    fn dispatch(&mut self, port: u16, event: Event) -> (out: Vec<(Connection, Event)>) {
        if port == 0 {
            fan_out(&self.output, Event { value: 1 })
        } else if port == 1 {
            fan_out(&self.output, Event { value: 0 })
        } else if port == 2 {
            fan_out(&self.output, event)
        } else {
            Vec::new()
        }
    }
}

/// Abstract state of a `Levels` cell: the level list, the cursor, and the
/// fan-out list of its single output.
#[verifier::ext_equal]
pub struct LevelsModel {
    pub levels: Seq<i32>,
    pub select: int,
    pub output: Seq<Connection>,
}

/// Well-formedness of a Levels cell: the cursor stays inside the level list
/// (and at 0 when the list is empty), and the list respects the decoder's
/// parameter ceiling.
pub open spec fn levels_wf(m: LevelsModel) -> bool {
    &&& m.levels.len() <= MAX_PARAMETERS as nat
    &&& 0 <= m.select
    &&& (m.levels.len() == 0 ==> m.select == 0)
    &&& (m.levels.len() > 0 ==> m.select < m.levels.len())
}

/// What Levels emits at startup: its first level, if it has any.
pub open spec fn levels_init(m: LevelsModel) -> Seq<(Connection, Event)> {
    if m.levels.len() == 0 {
        Seq::<(Connection, Event)>::empty()
    } else {
        emit_all(m.output, Event { value: m.levels[0] })
    }
}

/// What Levels does on dispatch: zero-valued events and unknown ports are
/// ignored; port 0 advances the cursor by one modulo `|levels|`, port 1 moves
/// it back by one modulo `|levels|` (written here without `%`: the cursor
/// stays in `[0, |levels|)`); a valid move emits the selected level.
pub open spec fn levels_dispatch(m: LevelsModel, port: u16, event: Event) -> (
    LevelsModel,
    Seq<(Connection, Event)>,
) {
    if event.value == 0 || m.levels.len() == 0 || port > 1 {
        (m, Seq::<(Connection, Event)>::empty())
    } else {
        let sel = if port == 0 {
            if m.select + 1 < m.levels.len() {
                m.select + 1
            } else {
                0
            }
        } else {
            if m.select == 0 {
                m.levels.len() - 1
            } else {
                m.select - 1
            }
        };
        let m2 = LevelsModel { levels: m.levels, select: sel, output: m.output };
        (m2, emit_all(m.output, Event { value: m.levels[sel] }))
    }
}

/// A cell holding an ordered list of values and a cursor; "bang" events
/// (nonzero value) step the cursor and re-emit the selected level.
pub struct Levels {
    pub levels: Vec<i32>,
    pub select: u32,
    pub output: Vec<Connection>,
}

impl View for Levels {
    type V = LevelsModel;

    open spec fn view(&self) -> LevelsModel {
        LevelsModel { levels: self.levels@, select: self.select as int, output: self.output@ }
    }
}

impl Primitive for Levels {
    open spec fn inv(m: LevelsModel) -> bool {
        levels_wf(m)
    }

    open spec fn init_model(m: LevelsModel) -> Seq<(Connection, Event)> {
        levels_init(m)
    }

    open spec fn dispatch_model(m: LevelsModel, port: u16, event: Event) -> (
        LevelsModel,
        Seq<(Connection, Event)>,
    ) {
        levels_dispatch(m, port, event)
    }

    fn init(&mut self) -> (out: Vec<(Connection, Event)>) {
        if self.levels.len() == 0 {
            Vec::new()
        } else {
            fan_out(&self.output, Event { value: self.levels[0] })
        }
    }

    fn dispatch(&mut self, port: u16, event: Event) -> (out: Vec<(Connection, Event)>) {
        if event.value == 0 {
            return Vec::new();
        }
        let len = self.levels.len();
        if len == 0 {
            return Vec::new();
        }
        if port == 0 {
            let next = self.select as usize + 1;
            self.select = if next < len {
                next as u32
            } else {
                0
            };
        } else if port == 1 {
            self.select = if self.select == 0 {
                (len - 1) as u32
            } else {
                self.select - 1
            };
        } else {
            return Vec::new();
        }
        fan_out(&self.output, Event { value: self.levels[self.select as usize] })
    }
}

/// Abstract state of a `Mux` cell: latched data inputs, the selection
/// cursor, and the fan-out list of its single output.
#[verifier::ext_equal]
pub struct MuxModel {
    pub select: int,
    pub inputs: Seq<i32>,
    pub output: Seq<Connection>,
}

/// What Mux does on dispatch: ports below `|inputs|` latch the value, port
/// `|inputs|` is the select port, higher ports are ignored. After the update
/// the selected input is emitted whenever the selection is in range.
pub open spec fn mux_dispatch(m: MuxModel, port: u16, event: Event) -> (
    MuxModel,
    Seq<(Connection, Event)>,
) {
    if port as int > m.inputs.len() {
        (m, Seq::<(Connection, Event)>::empty())
    } else {
        let m2 = if port as int == m.inputs.len() {
            MuxModel { select: event.value as usize as int, inputs: m.inputs, output: m.output }
        } else {
            MuxModel {
                select: m.select,
                inputs: m.inputs.update(port as int, event.value),
                output: m.output,
            }
        };
        if 0 <= m2.select && m2.select < m2.inputs.len() {
            (m2, emit_all(m2.output, Event { value: m2.inputs[m2.select] }))
        } else {
            (m2, Seq::<(Connection, Event)>::empty())
        }
    }
}

/// A multiplexer over `n` latched data inputs with one select port.
pub struct Mux {
    pub select: usize,
    pub output: Vec<Connection>,
    pub inputs: Vec<i32>,
}

impl View for Mux {
    type V = MuxModel;

    open spec fn view(&self) -> MuxModel {
        MuxModel { select: self.select as int, inputs: self.inputs@, output: self.output@ }
    }
}

impl Primitive for Mux {
    open spec fn inv(m: MuxModel) -> bool {
        0 <= m.select
    }

    open spec fn init_model(m: MuxModel) -> Seq<(Connection, Event)> {
        Seq::<(Connection, Event)>::empty()
    }

    open spec fn dispatch_model(m: MuxModel, port: u16, event: Event) -> (
        MuxModel,
        Seq<(Connection, Event)>,
    ) {
        mux_dispatch(m, port, event)
    }

    fn init(&mut self) -> (out: Vec<(Connection, Event)>) {
        Vec::new()
    }

    fn dispatch(&mut self, port: u16, event: Event) -> (out: Vec<(Connection, Event)>) {
        let n = self.inputs.len();
        if port as usize > n {
            return Vec::new();
        }
        if port as usize == n {
            self.select = event.value as usize;
        } else {
            self.inputs[port as usize] = event.value;
        }
        if self.select < self.inputs.len() {
            fan_out(&self.output, Event { value: self.inputs[self.select] })
        } else {
            Vec::new()
        }
    }
}

/// Abstract state of a `Demux` cell: the selection cursor and one fan-out
/// list per output port.
#[verifier::ext_equal]
pub struct DemuxModel {
    pub select: int,
    pub outputs: Seq<Seq<Connection>>,
}

/// What Demux does on dispatch: port 0 forwards the event verbatim to the
/// selected output (dropped when the selection is out of range), port 1 sets
/// the selection, other ports are ignored.
pub open spec fn demux_dispatch(m: DemuxModel, port: u16, event: Event) -> (
    DemuxModel,
    Seq<(Connection, Event)>,
) {
    if port == 0 {
        if 0 <= m.select && m.select < m.outputs.len() {
            (m, emit_all(m.outputs[m.select], event))
        } else {
            (m, Seq::<(Connection, Event)>::empty())
        }
    } else if port == 1 {
        (
            DemuxModel { select: event.value as u32 as int, outputs: m.outputs },
            Seq::<(Connection, Event)>::empty(),
        )
    } else {
        (m, Seq::<(Connection, Event)>::empty())
    }
}

/// A demultiplexer: routes data events to whichever output the selection
/// cursor names.
pub struct Demux {
    pub select: u32,
    pub outputs: Vec<Vec<Connection>>,
}

impl View for Demux {
    type V = DemuxModel;

    open spec fn view(&self) -> DemuxModel {
        DemuxModel {
            select: self.select as int,
            outputs: Seq::new(self.outputs@.len(), |i: int| self.outputs@[i]@),
        }
    }
}

impl Primitive for Demux {
    open spec fn inv(m: DemuxModel) -> bool {
        0 <= m.select
    }

    open spec fn init_model(m: DemuxModel) -> Seq<(Connection, Event)> {
        Seq::<(Connection, Event)>::empty()
    }

    open spec fn dispatch_model(m: DemuxModel, port: u16, event: Event) -> (
        DemuxModel,
        Seq<(Connection, Event)>,
    ) {
        demux_dispatch(m, port, event)
    }

    fn init(&mut self) -> (out: Vec<(Connection, Event)>) {
        Vec::new()
    }

    fn dispatch(&mut self, port: u16, event: Event) -> (out: Vec<(Connection, Event)>) {
        if port == 0 {
            if (self.select as usize) < self.outputs.len() {
                fan_out(&self.outputs[self.select as usize], event)
            } else {
                Vec::new()
            }
        } else if port == 1 {
            self.select = event.value as u32;
            Vec::new()
        } else {
            Vec::new()
        }
    }
}

/// Abstract state of any cell.
#[verifier::ext_equal]
pub enum CellModel {
    Levels(LevelsModel),
    Mux(MuxModel),
    Demux(DemuxModel),
    Bool(BoolModel),
}

/// Well-formedness of a cell's abstract state.
pub open spec fn cell_wf(m: CellModel) -> bool {
    match m {
        CellModel::Levels(l) => levels_wf(l),
        CellModel::Mux(x) => 0 <= x.select,
        CellModel::Demux(d) => 0 <= d.select,
        CellModel::Bool(_) => true,
    }
}

/// Startup emission of any cell: only Levels emits at startup.
pub open spec fn cell_init(m: CellModel) -> Seq<(Connection, Event)> {
    match m {
        CellModel::Levels(l) => levels_init(l),
        _ => Seq::<(Connection, Event)>::empty(),
    }
}

/// Dispatch semantics of any cell, by tag.
pub open spec fn cell_dispatch(m: CellModel, port: u16, event: Event) -> (
    CellModel,
    Seq<(Connection, Event)>,
) {
    match m {
        CellModel::Levels(l) => {
            let r = levels_dispatch(l, port, event);
            (CellModel::Levels(r.0), r.1)
        },
        CellModel::Mux(x) => {
            let r = mux_dispatch(x, port, event);
            (CellModel::Mux(r.0), r.1)
        },
        CellModel::Demux(d) => {
            let r = demux_dispatch(d, port, event);
            (CellModel::Demux(r.0), r.1)
        },
        CellModel::Bool(b) => {
            let r = bool_dispatch(b, port, event);
            (CellModel::Bool(r.0), r.1)
        },
    }
}

/// A cell of the graph: a tagged sum over the closed set of built-in
/// primitives.
pub enum Cell {
    Levels(Levels),
    Mux(Mux),
    Demux(Demux),
    Bool(BoolCell),
}

impl View for Cell {
    type V = CellModel;

    open spec fn view(&self) -> CellModel {
        match self {
            Cell::Levels(l) => CellModel::Levels(l@),
            Cell::Mux(x) => CellModel::Mux(x@),
            Cell::Demux(d) => CellModel::Demux(d@),
            Cell::Bool(b) => CellModel::Bool(b@),
        }
    }
}

impl Primitive for Cell {
    open spec fn inv(m: CellModel) -> bool {
        cell_wf(m)
    }

    open spec fn init_model(m: CellModel) -> Seq<(Connection, Event)> {
        cell_init(m)
    }

    open spec fn dispatch_model(m: CellModel, port: u16, event: Event) -> (
        CellModel,
        Seq<(Connection, Event)>,
    ) {
        cell_dispatch(m, port, event)
    }

    fn init(&mut self) -> (out: Vec<(Connection, Event)>) {
        match self {
            Cell::Levels(l) => l.init(),
            Cell::Mux(x) => x.init(),
            Cell::Demux(d) => d.init(),
            Cell::Bool(b) => b.init(),
        }
    }

    fn dispatch(&mut self, port: u16, event: Event) -> (out: Vec<(Connection, Event)>) {
        match self {
            Cell::Levels(l) => l.dispatch(port, event),
            Cell::Mux(x) => x.dispatch(port, event),
            Cell::Demux(d) => d.dispatch(port, event),
            Cell::Bool(b) => b.dispatch(port, event),
        }
    }
}

/// Typecode of a Levels cell in the netlist format.
pub const TYPE_LEVELS: u16 = 0;

/// Typecode of a Mux cell in the netlist format.
pub const TYPE_MUX: u16 = 1;

/// Typecode of a Demux cell in the netlist format.
pub const TYPE_DEMUX: u16 = 2;

/// Typecode of a Bool cell in the netlist format.
pub const TYPE_BOOL: u16 = 3;

/// Why the factory rejected a cell descriptor.
#[derive(Clone, Copy, Debug, PartialEq, Eq, Structural)]
pub enum InferPrimitiveError {
    WrongPortCount,
    BadType,
    WrongParamCount,
}

/// A decoded cell record, before the factory validates it: the typecode, one
/// connection list per output port, and the integer parameters.
pub struct PrimitiveDescriptor {
    pub typecode: u16,
    pub out_ports: Vec<Vec<Connection>>,
    pub params: Vec<i32>,
}

/// Abstract content of a cell descriptor.
#[verifier::ext_equal]
pub struct DescriptorModel {
    pub typecode: u16,
    pub out_ports: Seq<Seq<Connection>>,
    pub params: Seq<i32>,
}

impl View for PrimitiveDescriptor {
    type V = DescriptorModel;

    open spec fn view(&self) -> DescriptorModel {
        DescriptorModel {
            typecode: self.typecode,
            out_ports: Seq::new(self.out_ports@.len(), |i: int| self.out_ports@[i]@),
            params: self.params@,
        }
    }
}

/// Factory rule for Levels: exactly one output port; the parameters become
/// the level list and the cursor starts at 0.
pub open spec fn levels_build(d: DescriptorModel) -> Result<LevelsModel, InferPrimitiveError> {
    if d.typecode != TYPE_LEVELS {
        Err(InferPrimitiveError::BadType)
    } else if d.out_ports.len() != 1 {
        Err(InferPrimitiveError::WrongPortCount)
    } else {
        Ok(LevelsModel { levels: d.params, select: 0, output: d.out_ports[0] })
    }
}

/// Factory rule for Mux: exactly one parameter (the input count, read as an
/// unsigned size) and exactly one output port; the inputs start at 0 and the
/// selection at 0.
pub open spec fn mux_build(d: DescriptorModel) -> Result<MuxModel, InferPrimitiveError> {
    if d.typecode != TYPE_MUX {
        Err(InferPrimitiveError::BadType)
    } else if d.params.len() != 1 {
        Err(InferPrimitiveError::WrongParamCount)
    } else if d.out_ports.len() != 1 {
        Err(InferPrimitiveError::WrongPortCount)
    } else {
        Ok(
            MuxModel {
                select: 0,
                inputs: Seq::new(d.params[0] as usize as nat, |i: int| 0i32),
                output: d.out_ports[0],
            },
        )
    }
}

/// Factory rule for Demux: no parameters and at least one output port; the
/// selection starts at 0.
pub open spec fn demux_build(d: DescriptorModel) -> Result<DemuxModel, InferPrimitiveError> {
    if d.typecode != TYPE_DEMUX {
        Err(InferPrimitiveError::BadType)
    } else if d.params.len() != 0 {
        Err(InferPrimitiveError::WrongParamCount)
    } else if d.out_ports.len() == 0 {
        Err(InferPrimitiveError::WrongPortCount)
    } else {
        Ok(DemuxModel { select: 0, outputs: d.out_ports })
    }
}

/// Factory rule for Bool: exactly one output port and no parameters.
pub open spec fn bool_build(d: DescriptorModel) -> Result<BoolModel, InferPrimitiveError> {
    if d.typecode != TYPE_BOOL {
        Err(InferPrimitiveError::BadType)
    } else if d.out_ports.len() != 1 {
        Err(InferPrimitiveError::WrongPortCount)
    } else if d.params.len() != 0 {
        Err(InferPrimitiveError::WrongParamCount)
    } else {
        Ok(BoolModel { output: d.out_ports[0] })
    }
}

/// The whole factory: map the typecode to a cell kind and validate the
/// descriptor's arity against it; unknown typecodes are rejected.
pub open spec fn build_cell(d: DescriptorModel) -> Result<CellModel, InferPrimitiveError> {
    if d.typecode == TYPE_LEVELS {
        match levels_build(d) {
            Ok(m) => Ok(CellModel::Levels(m)),
            Err(e) => Err(e),
        }
    } else if d.typecode == TYPE_MUX {
        match mux_build(d) {
            Ok(m) => Ok(CellModel::Mux(m)),
            Err(e) => Err(e),
        }
    } else if d.typecode == TYPE_DEMUX {
        match demux_build(d) {
            Ok(m) => Ok(CellModel::Demux(m)),
            Err(e) => Err(e),
        }
    } else if d.typecode == TYPE_BOOL {
        match bool_build(d) {
            Ok(m) => Ok(CellModel::Bool(m)),
            Err(e) => Err(e),
        }
    } else {
        Err(InferPrimitiveError::BadType)
    }
}

impl Levels {
    /// Validates a descriptor as a Levels cell.
    pub fn from_descriptor(d: PrimitiveDescriptor) -> (r: Result<Levels, InferPrimitiveError>)
        requires
            d@.params.len() <= MAX_PARAMETERS as nat,
        ensures
            r is Ok <==> levels_build(d@) is Ok,
            (r matches Ok(l) ==> levels_build(d@) == Ok::<LevelsModel, InferPrimitiveError>(l@)
                && levels_wf(l@)),
            (r matches Err(e) ==> levels_build(d@) == Err::<LevelsModel, InferPrimitiveError>(e)),
    {
        let mut d = d;
        if d.typecode != TYPE_LEVELS {
            return Err(InferPrimitiveError::BadType);
        }
        if d.out_ports.len() != 1 {
            return Err(InferPrimitiveError::WrongPortCount);
        }
        let output = d.out_ports.remove(0);
        Ok(Levels { levels: d.params, select: 0, output })
    }
}

impl Mux {
    /// Validates a descriptor as a Mux cell and zero-fills its inputs.
    pub fn from_descriptor(d: PrimitiveDescriptor) -> (r: Result<Mux, InferPrimitiveError>)
        ensures
            r is Ok <==> mux_build(d@) is Ok,
            (r matches Ok(x) ==> mux_build(d@) == Ok::<MuxModel, InferPrimitiveError>(x@)),
            (r matches Err(e) ==> mux_build(d@) == Err::<MuxModel, InferPrimitiveError>(e)),
    {
        let mut d = d;
        if d.typecode != TYPE_MUX {
            return Err(InferPrimitiveError::BadType);
        }
        if d.params.len() != 1 {
            return Err(InferPrimitiveError::WrongParamCount);
        }
        if d.out_ports.len() != 1 {
            return Err(InferPrimitiveError::WrongPortCount);
        }
        let n = d.params[0] as usize;
        let mut inputs: Vec<i32> = Vec::new();
        let mut k: usize = 0;
        while k < n
            invariant
                k <= n,
                inputs@ == Seq::new(k as nat, |i: int| 0i32),
            decreases n - k,
        {
            inputs.push(0);
            proof {
                assert(inputs@ =~= Seq::new((k + 1) as nat, |i: int| 0i32));
            }
            k = k + 1;
        }
        let output = d.out_ports.remove(0);
        Ok(Mux { select: 0, output, inputs })
    }
}

impl Demux {
    /// Validates a descriptor as a Demux cell.
    pub fn from_descriptor(d: PrimitiveDescriptor) -> (r: Result<Demux, InferPrimitiveError>)
        ensures
            r is Ok <==> demux_build(d@) is Ok,
            (r matches Ok(x) ==> demux_build(d@) == Ok::<DemuxModel, InferPrimitiveError>(x@)),
            (r matches Err(e) ==> demux_build(d@) == Err::<DemuxModel, InferPrimitiveError>(e)),
    {
        if d.typecode != TYPE_DEMUX {
            return Err(InferPrimitiveError::BadType);
        }
        if d.params.len() != 0 {
            return Err(InferPrimitiveError::WrongParamCount);
        }
        if d.out_ports.len() == 0 {
            return Err(InferPrimitiveError::WrongPortCount);
        }
        let r = Demux { select: 0, outputs: d.out_ports };
        proof {
            assert(r@.outputs =~= d@.out_ports);
        }
        Ok(r)
    }
}

impl BoolCell {
    /// Validates a descriptor as a Bool cell.
    pub fn from_descriptor(d: PrimitiveDescriptor) -> (r: Result<BoolCell, InferPrimitiveError>)
        ensures
            r is Ok <==> bool_build(d@) is Ok,
            (r matches Ok(b) ==> bool_build(d@) == Ok::<BoolModel, InferPrimitiveError>(b@)),
            (r matches Err(e) ==> bool_build(d@) == Err::<BoolModel, InferPrimitiveError>(e)),
    {
        let mut d = d;
        if d.typecode != TYPE_BOOL {
            return Err(InferPrimitiveError::BadType);
        }
        if d.out_ports.len() != 1 {
            return Err(InferPrimitiveError::WrongPortCount);
        }
        if d.params.len() != 0 {
            return Err(InferPrimitiveError::WrongParamCount);
        }
        let output = d.out_ports.remove(0);
        Ok(BoolCell { output })
    }
}

/// The primitive factory: builds the cell that a decoded descriptor names,
/// or reports why it cannot.
pub fn build_primitive(d: PrimitiveDescriptor) -> (r: Result<Cell, InferPrimitiveError>)
    requires
        d@.params.len() <= MAX_PARAMETERS as nat,
    ensures
        r is Ok <==> build_cell(d@) is Ok,
        (r matches Ok(c) ==> build_cell(d@) == Ok::<CellModel, InferPrimitiveError>(c@)
            && cell_wf(c@)),
        (r matches Err(e) ==> build_cell(d@) == Err::<CellModel, InferPrimitiveError>(e)),
{
    if d.typecode == TYPE_LEVELS {
        match Levels::from_descriptor(d) {
            Ok(l) => Ok(Cell::Levels(l)),
            Err(e) => Err(e),
        }
    } else if d.typecode == TYPE_MUX {
        match Mux::from_descriptor(d) {
            Ok(x) => Ok(Cell::Mux(x)),
            Err(e) => Err(e),
        }
    } else if d.typecode == TYPE_DEMUX {
        match Demux::from_descriptor(d) {
            Ok(x) => Ok(Cell::Demux(x)),
            Err(e) => Err(e),
        }
    } else if d.typecode == TYPE_BOOL {
        match BoolCell::from_descriptor(d) {
            Ok(b) => Ok(Cell::Bool(b)),
            Err(e) => Err(e),
        }
    } else {
        Err(InferPrimitiveError::BadType)
    }
}

/// The state of a Levels cell after `k` pulses of its advance port with the
/// same nonzero value.
pub open spec fn levels_pulses(m: LevelsModel, k: nat, value: i32) -> LevelsModel
    decreases k,
{
    if k == 0 {
        m
    } else {
        levels_dispatch(levels_pulses(m, (k - 1) as nat, value), 0, Event { value }).0
    }
}

proof fn lemma_levels_pulses_select(m: LevelsModel, k: nat, value: i32)
    requires
        levels_wf(m),
        m.levels.len() > 0,
        value != 0,
    ensures
        levels_pulses(m, k, value).levels == m.levels,
        levels_pulses(m, k, value).output == m.output,
        levels_pulses(m, k, value).select == (m.select + k) % (m.levels.len() as int),
    decreases k,
{
    let n = m.levels.len() as int;
    if k == 0 {
        vstd::arithmetic::div_mod::lemma_small_mod(m.select as nat, m.levels.len());
    } else {
        lemma_levels_pulses_select(m, (k - 1) as nat, value);
        let p = levels_pulses(m, (k - 1) as nat, value);
        vstd::arithmetic::div_mod::lemma_mod_bound(m.select + k - 1, n);
        let t = p.select;
        // one pulse moves t to (t + 1) % n
        vstd::arithmetic::div_mod::lemma_add_mod_noop(m.select + k - 1, 1, n);
        if n > 1 {
            vstd::arithmetic::div_mod::lemma_small_mod(1nat, m.levels.len());
        }
        if n == 1 {
            vstd::arithmetic::div_mod::lemma_mod_self_0(n);
            vstd::arithmetic::div_mod::lemma_small_mod(0nat, m.levels.len());
        } else if t + 1 < n {
            vstd::arithmetic::div_mod::lemma_small_mod((t + 1) as nat, m.levels.len());
        } else {
            vstd::arithmetic::div_mod::lemma_mod_self_0(n);
        }
    }
}

/// Pulsing the advance port of a Levels cell exactly `|levels|` times with a
/// nonzero value returns the cursor to its prior position (and the level
/// list and fan-out never change).
pub proof fn lemma_levels_full_cycle(m: LevelsModel, value: i32)
    requires
        levels_wf(m),
        value != 0,
    ensures
        levels_pulses(m, m.levels.len(), value) == m,
{
    if m.levels.len() == 0 {
    } else {
        let n = m.levels.len() as int;
        lemma_levels_pulses_select(m, m.levels.len(), value);
        vstd::arithmetic::div_mod::lemma_mod_add_multiples_vanish(m.select, n);
        vstd::arithmetic::div_mod::lemma_small_mod(m.select as nat, m.levels.len());
        assert(levels_pulses(m, m.levels.len(), value) =~= m);
    }
}

/// For a well-formed Levels cell with at least one level, the cursor moves
/// of `levels_dispatch` are exactly the modular formulas: the advance port
/// takes the cursor to `(select + 1) % |levels|`, the back port to
/// `(select + |levels| - 1) % |levels|` (which wraps `0` to `|levels| - 1`
/// without underflow).
pub proof fn lemma_levels_steps_are_modular(m: LevelsModel, event: Event)
    requires
        levels_wf(m),
        m.levels.len() > 0,
        event.value != 0,
    ensures
        levels_dispatch(m, 0, event).0.select == (m.select + 1) % (m.levels.len() as int),
        levels_dispatch(m, 1, event).0.select == (m.select + m.levels.len() - 1) % (
        m.levels.len() as int),
{
    let n = m.levels.len() as int;
    if m.select + 1 < n {
        vstd::arithmetic::div_mod::lemma_small_mod((m.select + 1) as nat, m.levels.len());
    } else {
        vstd::arithmetic::div_mod::lemma_mod_self_0(n);
    }
    if m.select == 0 {
        vstd::arithmetic::div_mod::lemma_small_mod((n - 1) as nat, m.levels.len());
    } else {
        vstd::arithmetic::div_mod::lemma_mod_add_multiples_vanish(m.select - 1, n);
        vstd::arithmetic::div_mod::lemma_small_mod((m.select - 1) as nat, m.levels.len());
    }
}

/// A Bool cell is stateless: dispatching the same value to its pass-through
/// port a second time emits exactly the same events and leaves the cell as
/// it was.
pub proof fn lemma_bool_pass_through_repeatable(m: BoolModel, value: i32)
    ensures
        bool_dispatch(m, 2, Event { value }).0 == m,
        bool_dispatch(bool_dispatch(m, 2, Event { value }).0, 2, Event { value }).1
            == bool_dispatch(m, 2, Event { value }).1,
{
}

/// A Levels cell with an empty level list is inert: `init` emits nothing and
/// any dispatch neither changes state nor emits.
pub proof fn lemma_levels_empty_inert(m: LevelsModel, port: u16, event: Event)
    requires
        m.levels.len() == 0,
    ensures
        levels_init(m) == Seq::<(Connection, Event)>::empty(),
        levels_dispatch(m, port, event).0 == m,
        levels_dispatch(m, port, event).1 == Seq::<(Connection, Event)>::empty(),
{
}

/// A Mux with zero data inputs never emits, whatever arrives on whatever
/// port.
pub proof fn lemma_mux_no_inputs_never_emits(m: MuxModel, port: u16, event: Event)
    requires
        m.inputs.len() == 0,
    ensures
        mux_dispatch(m, port, event).1 == Seq::<(Connection, Event)>::empty(),
{
}

/// A Demux whose selection is out of range drops data events: no emission
/// and no state change on port 0.
pub proof fn lemma_demux_out_of_range_drops(m: DemuxModel, event: Event)
    requires
        !(0 <= m.select < m.outputs.len()),
    ensures
        demux_dispatch(m, 0, event).0 == m,
        demux_dispatch(m, 0, event).1 == Seq::<(Connection, Event)>::empty(),
{
}

/// A zero-valued event is no "bang": sent to a Levels cell at any port it
/// changes no state and emits nothing.
pub proof fn lemma_levels_zero_value_ignored(m: LevelsModel, port: u16)
    ensures
        levels_dispatch(m, port, Event { value: 0 }).0 == m,
        levels_dispatch(m, port, Event { value: 0 }).1 == Seq::<(Connection, Event)>::empty(),
{
}

} // verus!



