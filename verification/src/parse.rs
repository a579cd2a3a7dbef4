//! The netlist binary format, as a mathematical function of the bytes: a
//! little-endian recursive-descent parser in specification land. The
//! executable decoder is proved to return exactly what these functions say.

use vstd::prelude::*;

use crate::cells::CellModel;
use crate::cells::Connection;
use crate::cells::DescriptorModel;
use crate::cells::MAX_PARAMETERS;
use crate::cells::build_cell;
use crate::reader::DecodingError;
use crate::reader::le16_at;
use crate::reader::spec_read_u16;
use crate::reader::spec_read_u32;
use crate::reader::spec_read_i32;
use crate::reader::spec_skip;

verus! {

/// Ceiling on the number of hardware pin inputs.
pub const MAX_INPUT_PORTS: u16 = 32;

/// Ceiling on the number of software inputs.
pub const MAX_SOFTWARE_PORTS: u16 = 256;

/// Ceiling on the number of cells.
pub const MAX_CELLS: u32 = 256;

/// Ceiling on the number of output ports of one cell record.
pub const MAX_OUTPUTS: u16 = 256;

/// Ceiling on the number of connections of one connection list in a cell
/// record.
pub const MAX_CONNECTIONS: u16 = 256;

/// Abstract content of one input record: the pin or address id and its
/// fan-out list. The record's name bytes are discarded.
#[verifier::ext_equal]
pub struct InputModel {
    pub id: u16,
    pub connections: Seq<Connection>,
}

/// Abstract content of a whole decoded netlist.
#[verifier::ext_equal]
pub struct SystemModel {
    pub pin_inputs: Seq<InputModel>,
    pub sw_inputs: Seq<InputModel>,
    pub cells: Seq<CellModel>,
}

/// `n` connection entries: pairs of `u16 cell_id, u16 port`.
pub open spec fn parse_connections(b: Seq<u8>, pos: int, n: nat) -> Result<
    (Seq<Connection>, int),
    DecodingError,
>
    decreases n,
{
    if n == 0 {
        Ok((Seq::<Connection>::empty(), pos))
    } else {
        match spec_read_u16(b, pos) {
            Err(e) => Err(e),
            Ok((cell_id, p1)) => match spec_read_u16(b, p1) {
                Err(e) => Err(e),
                Ok((port, p2)) => match parse_connections(b, p2, (n - 1) as nat) {
                    Err(e) => Err(e),
                    Ok((rest, end)) => Ok((seq![Connection { cell_id, port }] + rest, end)),
                },
            },
        }
    }
}

/// One input record: id, name size, the skipped name bytes, and the
/// connection list.
pub open spec fn parse_input_record(b: Seq<u8>, pos: int) -> Result<
    (InputModel, int),
    DecodingError,
> {
    match spec_read_u16(b, pos) {
        Err(e) => Err(e),
        Ok((id, p1)) => match spec_read_u16(b, p1) {
            Err(e) => Err(e),
            Ok((name_size, p2)) => match spec_skip(b, p2, name_size as int) {
                Err(e) => Err(e),
                Ok(p3) => match spec_read_u16(b, p3) {
                    Err(e) => Err(e),
                    Ok((n_conn, p4)) => match parse_connections(b, p4, n_conn as nat) {
                        Err(e) => Err(e),
                        Ok((conns, end)) => Ok((InputModel { id, connections: conns }, end)),
                    },
                },
            },
        },
    }
}

/// `n` input records.
pub open spec fn parse_input_records(b: Seq<u8>, pos: int, n: nat) -> Result<
    (Seq<InputModel>, int),
    DecodingError,
>
    decreases n,
{
    if n == 0 {
        Ok((Seq::<InputModel>::empty(), pos))
    } else {
        match parse_input_record(b, pos) {
            Err(e) => Err(e),
            Ok((rec, p1)) => match parse_input_records(b, p1, (n - 1) as nat) {
                Err(e) => Err(e),
                Ok((rest, end)) => Ok((seq![rec] + rest, end)),
            },
        }
    }
}

/// `n` signed 32-bit parameters.
pub open spec fn parse_params(b: Seq<u8>, pos: int, n: nat) -> Result<(Seq<i32>, int), DecodingError>
    decreases n,
{
    if n == 0 {
        Ok((Seq::<i32>::empty(), pos))
    } else {
        match spec_read_i32(b, pos) {
            Err(e) => Err(e),
            Ok((v, p1)) => match parse_params(b, p1, (n - 1) as nat) {
                Err(e) => Err(e),
                Ok((rest, end)) => Ok((seq![v] + rest, end)),
            },
        }
    }
}

/// One output port of a cell record: a checked connection count and the
/// connection list.
pub open spec fn parse_out_port(b: Seq<u8>, pos: int) -> Result<(Seq<Connection>, int), DecodingError> {
    match spec_read_u16(b, pos) {
        Err(e) => Err(e),
        Ok((n_conn, p1)) => if n_conn > MAX_CONNECTIONS {
            Err(DecodingError::CountTooLarge)
        } else {
            parse_connections(b, p1, n_conn as nat)
        },
    }
}

/// `n` output ports.
pub open spec fn parse_out_ports(b: Seq<u8>, pos: int, n: nat) -> Result<
    (Seq<Seq<Connection>>, int),
    DecodingError,
>
    decreases n,
{
    if n == 0 {
        Ok((Seq::<Seq<Connection>>::empty(), pos))
    } else {
        match parse_out_port(b, pos) {
            Err(e) => Err(e),
            Ok((port, p1)) => match parse_out_ports(b, p1, (n - 1) as nat) {
                Err(e) => Err(e),
                Ok((rest, end)) => Ok((seq![port] + rest, end)),
            },
        }
    }
}

/// One cell record: typecode, checked parameter count, parameters, checked
/// output count, output ports; then the factory validates the descriptor,
/// and its rejection surfaces as `BadPrimitive`.
pub open spec fn parse_cell(b: Seq<u8>, pos: int) -> Result<(CellModel, int), DecodingError> {
    match spec_read_u16(b, pos) {
        Err(e) => Err(e),
        Ok((typecode, p1)) => match spec_read_u16(b, p1) {
            Err(e) => Err(e),
            Ok((n_params, p2)) => if n_params > MAX_PARAMETERS {
                Err(DecodingError::CountTooLarge)
            } else {
                match parse_params(b, p2, n_params as nat) {
                    Err(e) => Err(e),
                    Ok((params, p3)) => match spec_read_u16(b, p3) {
                        Err(e) => Err(e),
                        Ok((n_outputs, p4)) => if n_outputs > MAX_OUTPUTS {
                            Err(DecodingError::CountTooLarge)
                        } else {
                            match parse_out_ports(b, p4, n_outputs as nat) {
                                Err(e) => Err(e),
                                Ok((outs, end)) => match build_cell(
                                    DescriptorModel { typecode, out_ports: outs, params },
                                ) {
                                    Ok(c) => Ok((c, end)),
                                    Err(_) => Err(DecodingError::BadPrimitive),
                                },
                            }
                        },
                    },
                }
            },
        },
    }
}

/// `n` cell records.
pub open spec fn parse_cells(b: Seq<u8>, pos: int, n: nat) -> Result<
    (Seq<CellModel>, int),
    DecodingError,
>
    decreases n,
{
    if n == 0 {
        Ok((Seq::<CellModel>::empty(), pos))
    } else {
        match parse_cell(b, pos) {
            Err(e) => Err(e),
            Ok((cell, p1)) => match parse_cells(b, p1, (n - 1) as nat) {
                Err(e) => Err(e),
                Ok((rest, end)) => Ok((seq![cell] + rest, end)),
            },
        }
    }
}

/// The whole netlist: checked pin input count and records, checked software
/// input count and records, checked cell count and records. Trailing bytes
/// after the last cell are tolerated; the returned position is where parsing
/// stopped.
pub open spec fn parse_netlist(b: Seq<u8>) -> Result<(SystemModel, int), DecodingError> {
    match spec_read_u16(b, 0) {
        Err(e) => Err(e),
        Ok((n_pin, p1)) => if n_pin > MAX_INPUT_PORTS {
            Err(DecodingError::CountTooLarge)
        } else {
            match parse_input_records(b, p1, n_pin as nat) {
                Err(e) => Err(e),
                Ok((pins, p2)) => match spec_read_u16(b, p2) {
                    Err(e) => Err(e),
                    Ok((n_sw, p3)) => if n_sw > MAX_SOFTWARE_PORTS {
                        Err(DecodingError::CountTooLarge)
                    } else {
                        match parse_input_records(b, p3, n_sw as nat) {
                            Err(e) => Err(e),
                            Ok((sws, p4)) => match spec_read_u32(b, p4) {
                                Err(e) => Err(e),
                                Ok((n_cells, p5)) => if n_cells > MAX_CELLS {
                                    Err(DecodingError::CountTooLarge)
                                } else {
                                    match parse_cells(b, p5, n_cells as nat) {
                                        Err(e) => Err(e),
                                        Ok((cells, end)) => Ok(
                                            (
                                                SystemModel {
                                                    pin_inputs: pins,
                                                    sw_inputs: sws,
                                                    cells,
                                                },
                                                end,
                                            ),
                                        ),
                                    }
                                },
                            },
                        }
                    },
                },
            }
        },
    }
}

proof fn lemma_parse_connections_bounds(b: Seq<u8>, pos: int, n: nat, v: Seq<Connection>, e: int)
    requires
        0 <= pos,
        parse_connections(b, pos, n) == Ok::<(Seq<Connection>, int), DecodingError>((v, e)),
    ensures
        pos <= e <= b.len() || (pos == e && n == 0),
        pos <= e,
        n > 0 ==> e <= b.len(),
        v.len() == n,
    decreases n,
{
    if n > 0 {
        let p2 = pos + 4;
        match parse_connections(b, p2, (n - 1) as nat) {
            Ok((rest, end)) => {
                lemma_parse_connections_bounds(b, p2, (n - 1) as nat, rest, end);
            },
            Err(_) => {},
        }
    }
}

proof fn lemma_parse_input_record_bounds(b: Seq<u8>, pos: int, v: InputModel, e: int)
    requires
        0 <= pos,
        parse_input_record(b, pos) == Ok::<(InputModel, int), DecodingError>((v, e)),
    ensures
        pos <= e <= b.len(),
{
    let p1 = pos + 2;
    match spec_read_u16(b, p1) {
        Ok((name_size, p2)) => {
            let p3 = p2 + name_size;
            let p4 = p3 + 2;
            match parse_connections(b, p4, le16_at(b, p3) as nat) {
                Ok((conns, end)) => {
                    lemma_parse_connections_bounds(b, p4, le16_at(b, p3) as nat, conns, end);
                },
                Err(_) => {},
            }
        },
        Err(_) => {},
    }
}

proof fn lemma_parse_input_records_bounds(b: Seq<u8>, pos: int, n: nat, v: Seq<InputModel>, e: int)
    requires
        0 <= pos,
        parse_input_records(b, pos, n) == Ok::<(Seq<InputModel>, int), DecodingError>((v, e)),
    ensures
        pos <= e,
        n > 0 ==> e <= b.len(),
        v.len() == n,
    decreases n,
{
    if n > 0 {
        match parse_input_record(b, pos) {
            Ok((rec, p1)) => {
                lemma_parse_input_record_bounds(b, pos, rec, p1);
                match parse_input_records(b, p1, (n - 1) as nat) {
                    Ok((rest, end)) => {
                        lemma_parse_input_records_bounds(b, p1, (n - 1) as nat, rest, end);
                    },
                    Err(_) => {},
                }
            },
            Err(_) => {},
        }
    }
}

proof fn lemma_parse_params_bounds(b: Seq<u8>, pos: int, n: nat, v: Seq<i32>, e: int)
    requires
        0 <= pos,
        parse_params(b, pos, n) == Ok::<(Seq<i32>, int), DecodingError>((v, e)),
    ensures
        pos <= e,
        n > 0 ==> e <= b.len(),
        v.len() == n,
    decreases n,
{
    if n > 0 {
        let p1 = pos + 4;
        match parse_params(b, p1, (n - 1) as nat) {
            Ok((rest, end)) => {
                lemma_parse_params_bounds(b, p1, (n - 1) as nat, rest, end);
            },
            Err(_) => {},
        }
    }
}

proof fn lemma_parse_out_port_bounds(b: Seq<u8>, pos: int, v: Seq<Connection>, e: int)
    requires
        0 <= pos,
        parse_out_port(b, pos) == Ok::<(Seq<Connection>, int), DecodingError>((v, e)),
    ensures
        pos <= e <= b.len(),
{
    let p1 = pos + 2;
    match parse_connections(b, p1, le16_at(b, pos) as nat) {
        Ok((conns, end)) => {
            lemma_parse_connections_bounds(b, p1, le16_at(b, pos) as nat, conns, end);
        },
        Err(_) => {},
    }
}

proof fn lemma_parse_out_ports_bounds(b: Seq<u8>, pos: int, n: nat, v: Seq<Seq<Connection>>, e: int)
    requires
        0 <= pos,
        parse_out_ports(b, pos, n) == Ok::<(Seq<Seq<Connection>>, int), DecodingError>((v, e)),
    ensures
        pos <= e,
        n > 0 ==> e <= b.len(),
        v.len() == n,
    decreases n,
{
    if n > 0 {
        match parse_out_port(b, pos) {
            Ok((port, p1)) => {
                lemma_parse_out_port_bounds(b, pos, port, p1);
                match parse_out_ports(b, p1, (n - 1) as nat) {
                    Ok((rest, end)) => {
                        lemma_parse_out_ports_bounds(b, p1, (n - 1) as nat, rest, end);
                    },
                    Err(_) => {},
                }
            },
            Err(_) => {},
        }
    }
}

proof fn lemma_parse_cell_bounds(b: Seq<u8>, pos: int, v: CellModel, e: int)
    requires
        0 <= pos,
        parse_cell(b, pos) == Ok::<(CellModel, int), DecodingError>((v, e)),
    ensures
        pos <= e <= b.len(),
{
    let p2 = pos + 4;
    match parse_params(b, p2, le16_at(b, pos + 2) as nat) {
        Ok((params, p3)) => {
            lemma_parse_params_bounds(b, p2, le16_at(b, pos + 2) as nat, params, p3);
            let p4 = p3 + 2;
            match parse_out_ports(b, p4, le16_at(b, p3) as nat) {
                Ok((outs, end)) => {
                    lemma_parse_out_ports_bounds(b, p4, le16_at(b, p3) as nat, outs, end);
                },
                Err(_) => {},
            }
        },
        Err(_) => {},
    }
}

proof fn lemma_parse_cells_bounds(b: Seq<u8>, pos: int, n: nat, v: Seq<CellModel>, e: int)
    requires
        0 <= pos,
        parse_cells(b, pos, n) == Ok::<(Seq<CellModel>, int), DecodingError>((v, e)),
    ensures
        pos <= e,
        n > 0 ==> e <= b.len(),
        v.len() == n,
    decreases n,
{
    if n > 0 {
        match parse_cell(b, pos) {
            Ok((cell, p1)) => {
                lemma_parse_cell_bounds(b, pos, cell, p1);
                match parse_cells(b, p1, (n - 1) as nat) {
                    Ok((rest, end)) => {
                        lemma_parse_cells_bounds(b, p1, (n - 1) as nat, rest, end);
                    },
                    Err(_) => {},
                }
            },
            Err(_) => {},
        }
    }
}

/// Every netlist that decodes respects the documented ceilings: at most 32
/// pin inputs, 256 software inputs, and 256 cells.
pub proof fn lemma_netlist_limits(b: Seq<u8>, m: SystemModel, e: int)
    requires
        parse_netlist(b) == Ok::<(SystemModel, int), DecodingError>((m, e)),
    ensures
        m.pin_inputs.len() <= MAX_INPUT_PORTS as nat,
        m.sw_inputs.len() <= MAX_SOFTWARE_PORTS as nat,
        m.cells.len() <= MAX_CELLS as nat,
{
    let p1 = 2int;
    match parse_input_records(b, p1, le16_at(b, 0) as nat) {
        Ok((pins, p2)) => {
            lemma_parse_input_records_bounds(b, p1, le16_at(b, 0) as nat, pins, p2);
            match parse_input_records(b, p2 + 2, le16_at(b, p2) as nat) {
                Ok((sws, p4)) => {
                    lemma_parse_input_records_bounds(b, p2 + 2, le16_at(b, p2) as nat, sws, p4);
                    match spec_read_u32(b, p4) {
                        Ok((n_cells, p5)) => match parse_cells(b, p5, n_cells as nat) {
                            Ok((cells, end)) => {
                                lemma_parse_cells_bounds(b, p5, n_cells as nat, cells, end);
                            },
                            Err(_) => {},
                        },
                        Err(_) => {},
                    }
                },
                Err(_) => {},
            }
        },
        Err(_) => {},
    }
}

proof fn lemma_read_u16_prefix(b: Seq<u8>, pos: int, j: int)
    requires
        0 <= pos,
        0 <= j <= b.len(),
    ensures
        pos + 2 <= j ==> spec_read_u16(b.take(j), pos) == spec_read_u16(b, pos),
        pos <= j < pos + 2 ==> spec_read_u16(b.take(j), pos) == Err::<(u16, int), DecodingError>(
            DecodingError::InsufficientBytes,
        ),
{
    let bt = b.take(j);
    if pos + 2 <= j {
        assert(bt[pos] == b[pos]);
        assert(bt[pos + 1] == b[pos + 1]);
    }
}

proof fn lemma_read_u32_prefix(b: Seq<u8>, pos: int, j: int)
    requires
        0 <= pos,
        0 <= j <= b.len(),
    ensures
        pos + 4 <= j ==> spec_read_u32(b.take(j), pos) == spec_read_u32(b, pos),
        pos <= j < pos + 4 ==> spec_read_u32(b.take(j), pos) == Err::<(u32, int), DecodingError>(
            DecodingError::InsufficientBytes,
        ),
{
    let bt = b.take(j);
    if pos + 4 <= j {
        assert(bt[pos] == b[pos]);
        assert(bt[pos + 1] == b[pos + 1]);
        assert(bt[pos + 2] == b[pos + 2]);
        assert(bt[pos + 3] == b[pos + 3]);
    }
}

proof fn lemma_read_i32_prefix(b: Seq<u8>, pos: int, j: int)
    requires
        0 <= pos,
        0 <= j <= b.len(),
    ensures
        pos + 4 <= j ==> spec_read_i32(b.take(j), pos) == spec_read_i32(b, pos),
        pos <= j < pos + 4 ==> spec_read_i32(b.take(j), pos) == Err::<(i32, int), DecodingError>(
            DecodingError::InsufficientBytes,
        ),
{
    lemma_read_u32_prefix(b, pos, j);
}

proof fn lemma_parse_connections_prefix(b: Seq<u8>, pos: int, n: nat, v: Seq<Connection>, e: int, j: int)
    requires
        0 <= pos,
        0 <= j <= b.len(),
        parse_connections(b, pos, n) == Ok::<(Seq<Connection>, int), DecodingError>((v, e)),
    ensures
        e <= j ==> parse_connections(b.take(j), pos, n) == Ok::<(Seq<Connection>, int), DecodingError>((v, e)),
        pos <= j < e ==> parse_connections(b.take(j), pos, n) == Err::<(Seq<Connection>, int), DecodingError>(
            DecodingError::InsufficientBytes,
        ),
    decreases n,
{
    if n > 0 {
        let p1 = pos + 2;
        let p2 = pos + 4;
        lemma_read_u16_prefix(b, pos, j);
        lemma_read_u16_prefix(b, p1, j);
        match parse_connections(b, p2, (n - 1) as nat) {
            Ok((rest, end)) => {
                lemma_parse_connections_bounds(b, p2, (n - 1) as nat, rest, end);
                lemma_parse_connections_prefix(b, p2, (n - 1) as nat, rest, end, j);
            },
            Err(_) => {},
        }
    }
}

proof fn lemma_parse_input_record_prefix(b: Seq<u8>, pos: int, v: InputModel, e: int, j: int)
    requires
        0 <= pos,
        0 <= j <= b.len(),
        parse_input_record(b, pos) == Ok::<(InputModel, int), DecodingError>((v, e)),
    ensures
        e <= j ==> parse_input_record(b.take(j), pos) == Ok::<(InputModel, int), DecodingError>((v, e)),
        pos <= j < e ==> parse_input_record(b.take(j), pos) == Err::<(InputModel, int), DecodingError>(
            DecodingError::InsufficientBytes,
        ),
{
    let p1 = pos + 2;
    lemma_read_u16_prefix(b, pos, j);
    lemma_read_u16_prefix(b, p1, j);
    match spec_read_u16(b, p1) {
        Ok((name_size, p2)) => {
            let p3 = p2 + name_size;
            match spec_skip(b, p2, name_size as int) {
                Ok(_) => {
                    let p4 = p3 + 2;
                    lemma_read_u16_prefix(b, p3, j);
                    match parse_connections(b, p4, le16_at(b, p3) as nat) {
                        Ok((conns, end)) => {
                            lemma_parse_connections_bounds(
                                b,
                                p4,
                                le16_at(b, p3) as nat,
                                conns,
                                end,
                            );
                            lemma_parse_connections_prefix(
                                b,
                                p4,
                                le16_at(b, p3) as nat,
                                conns,
                                end,
                                j,
                            );
                        },
                        Err(_) => {},
                    }
                },
                Err(_) => {},
            }
        },
        Err(_) => {},
    }
}

proof fn lemma_parse_input_records_prefix(b: Seq<u8>, pos: int, n: nat, v: Seq<InputModel>, e: int, j: int)
    requires
        0 <= pos,
        0 <= j <= b.len(),
        parse_input_records(b, pos, n) == Ok::<(Seq<InputModel>, int), DecodingError>((v, e)),
    ensures
        e <= j ==> parse_input_records(b.take(j), pos, n) == Ok::<(Seq<InputModel>, int), DecodingError>((v, e)),
        pos <= j < e ==> parse_input_records(b.take(j), pos, n) == Err::<(Seq<InputModel>, int), DecodingError>(
            DecodingError::InsufficientBytes,
        ),
    decreases n,
{
    if n > 0 {
        match parse_input_record(b, pos) {
            Ok((rec, p1)) => {
                lemma_parse_input_record_bounds(b, pos, rec, p1);
                lemma_parse_input_record_prefix(b, pos, rec, p1, j);
                match parse_input_records(b, p1, (n - 1) as nat) {
                    Ok((rest, end)) => {
                        lemma_parse_input_records_bounds(b, p1, (n - 1) as nat, rest, end);
                        lemma_parse_input_records_prefix(b, p1, (n - 1) as nat, rest, end, j);
                    },
                    Err(_) => {},
                }
            },
            Err(_) => {},
        }
    }
}

proof fn lemma_parse_params_prefix(b: Seq<u8>, pos: int, n: nat, v: Seq<i32>, e: int, j: int)
    requires
        0 <= pos,
        0 <= j <= b.len(),
        parse_params(b, pos, n) == Ok::<(Seq<i32>, int), DecodingError>((v, e)),
    ensures
        e <= j ==> parse_params(b.take(j), pos, n) == Ok::<(Seq<i32>, int), DecodingError>((v, e)),
        pos <= j < e ==> parse_params(b.take(j), pos, n) == Err::<(Seq<i32>, int), DecodingError>(
            DecodingError::InsufficientBytes,
        ),
    decreases n,
{
    if n > 0 {
        let p1 = pos + 4;
        lemma_read_i32_prefix(b, pos, j);
        match parse_params(b, p1, (n - 1) as nat) {
            Ok((rest, end)) => {
                lemma_parse_params_bounds(b, p1, (n - 1) as nat, rest, end);
                lemma_parse_params_prefix(b, p1, (n - 1) as nat, rest, end, j);
            },
            Err(_) => {},
        }
    }
}

proof fn lemma_parse_out_port_prefix(b: Seq<u8>, pos: int, v: Seq<Connection>, e: int, j: int)
    requires
        0 <= pos,
        0 <= j <= b.len(),
        parse_out_port(b, pos) == Ok::<(Seq<Connection>, int), DecodingError>((v, e)),
    ensures
        e <= j ==> parse_out_port(b.take(j), pos) == Ok::<(Seq<Connection>, int), DecodingError>((v, e)),
        pos <= j < e ==> parse_out_port(b.take(j), pos) == Err::<(Seq<Connection>, int), DecodingError>(
            DecodingError::InsufficientBytes,
        ),
{
    let p1 = pos + 2;
    lemma_read_u16_prefix(b, pos, j);
    match parse_connections(b, p1, le16_at(b, pos) as nat) {
        Ok((conns, end)) => {
            lemma_parse_connections_bounds(b, p1, le16_at(b, pos) as nat, conns, end);
            lemma_parse_connections_prefix(b, p1, le16_at(b, pos) as nat, conns, end, j);
        },
        Err(_) => {},
    }
}

proof fn lemma_parse_out_ports_prefix(b: Seq<u8>, pos: int, n: nat, v: Seq<Seq<Connection>>, e: int, j: int)
    requires
        0 <= pos,
        0 <= j <= b.len(),
        parse_out_ports(b, pos, n) == Ok::<(Seq<Seq<Connection>>, int), DecodingError>((v, e)),
    ensures
        e <= j ==> parse_out_ports(b.take(j), pos, n) == Ok::<(Seq<Seq<Connection>>, int), DecodingError>((v, e)),
        pos <= j < e ==> parse_out_ports(b.take(j), pos, n) == Err::<(Seq<Seq<Connection>>, int), DecodingError>(
            DecodingError::InsufficientBytes,
        ),
    decreases n,
{
    if n > 0 {
        match parse_out_port(b, pos) {
            Ok((port, p1)) => {
                lemma_parse_out_port_bounds(b, pos, port, p1);
                lemma_parse_out_port_prefix(b, pos, port, p1, j);
                match parse_out_ports(b, p1, (n - 1) as nat) {
                    Ok((rest, end)) => {
                        lemma_parse_out_ports_bounds(b, p1, (n - 1) as nat, rest, end);
                        lemma_parse_out_ports_prefix(b, p1, (n - 1) as nat, rest, end, j);
                    },
                    Err(_) => {},
                }
            },
            Err(_) => {},
        }
    }
}

proof fn lemma_parse_cell_prefix(b: Seq<u8>, pos: int, v: CellModel, e: int, j: int)
    requires
        0 <= pos,
        0 <= j <= b.len(),
        parse_cell(b, pos) == Ok::<(CellModel, int), DecodingError>((v, e)),
    ensures
        e <= j ==> parse_cell(b.take(j), pos) == Ok::<(CellModel, int), DecodingError>((v, e)),
        pos <= j < e ==> parse_cell(b.take(j), pos) == Err::<(CellModel, int), DecodingError>(
            DecodingError::InsufficientBytes,
        ),
{
    let p1 = pos + 2;
    let p2 = pos + 4;
    lemma_read_u16_prefix(b, pos, j);
    lemma_read_u16_prefix(b, p1, j);
    match parse_params(b, p2, le16_at(b, p1) as nat) {
        Ok((params, p3)) => {
            lemma_parse_params_bounds(b, p2, le16_at(b, p1) as nat, params, p3);
            lemma_parse_params_prefix(b, p2, le16_at(b, p1) as nat, params, p3, j);
            let p4 = p3 + 2;
            lemma_read_u16_prefix(b, p3, j);
            match parse_out_ports(b, p4, le16_at(b, p3) as nat) {
                Ok((outs, end)) => {
                    lemma_parse_out_ports_bounds(b, p4, le16_at(b, p3) as nat, outs, end);
                    lemma_parse_out_ports_prefix(b, p4, le16_at(b, p3) as nat, outs, end, j);
                },
                Err(_) => {},
            }
        },
        Err(_) => {},
    }
}

proof fn lemma_parse_cells_prefix(b: Seq<u8>, pos: int, n: nat, v: Seq<CellModel>, e: int, j: int)
    requires
        0 <= pos,
        0 <= j <= b.len(),
        parse_cells(b, pos, n) == Ok::<(Seq<CellModel>, int), DecodingError>((v, e)),
    ensures
        e <= j ==> parse_cells(b.take(j), pos, n) == Ok::<(Seq<CellModel>, int), DecodingError>((v, e)),
        pos <= j < e ==> parse_cells(b.take(j), pos, n) == Err::<(Seq<CellModel>, int), DecodingError>(
            DecodingError::InsufficientBytes,
        ),
    decreases n,
{
    if n > 0 {
        match parse_cell(b, pos) {
            Ok((cell, p1)) => {
                lemma_parse_cell_bounds(b, pos, cell, p1);
                lemma_parse_cell_prefix(b, pos, cell, p1, j);
                match parse_cells(b, p1, (n - 1) as nat) {
                    Ok((rest, end)) => {
                        lemma_parse_cells_bounds(b, p1, (n - 1) as nat, rest, end);
                        lemma_parse_cells_prefix(b, p1, (n - 1) as nat, rest, end, j);
                    },
                    Err(_) => {},
                }
            },
            Err(_) => {},
        }
    }
}

/// A successful netlist parse consumes only bytes that exist.
pub proof fn lemma_parse_netlist_bounds(b: Seq<u8>, m: SystemModel, e: int)
    requires
        parse_netlist(b) == Ok::<(SystemModel, int), DecodingError>((m, e)),
    ensures
        0 <= e <= b.len(),
{
    let p1 = 2int;
    match parse_input_records(b, p1, le16_at(b, 0) as nat) {
        Ok((pins, p2)) => {
            lemma_parse_input_records_bounds(b, p1, le16_at(b, 0) as nat, pins, p2);
            let p3 = p2 + 2;
            match parse_input_records(b, p3, le16_at(b, p2) as nat) {
                Ok((sws, p4)) => {
                    lemma_parse_input_records_bounds(b, p3, le16_at(b, p2) as nat, sws, p4);
                    let p5 = p4 + 4;
                    match spec_read_u32(b, p4) {
                        Ok((n_cells, _)) => {
                            match parse_cells(b, p5, n_cells as nat) {
                                Ok((cells, end)) => {
                                    lemma_parse_cells_bounds(b, p5, n_cells as nat, cells, end);
                                },
                                Err(_) => {},
                            }
                        },
                        Err(_) => {},
                    }
                },
                Err(_) => {},
            }
        },
        Err(_) => {},
    }
}

/// Cutting a well-formed netlist anywhere inside its consumed bytes makes
/// the parse fail with `InsufficientBytes` — never `BadPrimitive`, never
/// `CountTooLarge`: every length check and factory check that the shortened
/// parse reaches sees the same values the full parse saw.
pub proof fn lemma_truncation_insufficient(b: Seq<u8>, m: SystemModel, e: int, j: int)
    requires
        parse_netlist(b) == Ok::<(SystemModel, int), DecodingError>((m, e)),
        0 <= j < e,
    ensures
        parse_netlist(b.take(j)) == Err::<(SystemModel, int), DecodingError>(
            DecodingError::InsufficientBytes,
        ),
{
    lemma_parse_netlist_bounds(b, m, e);
    let p1 = 2int;
    lemma_read_u16_prefix(b, 0, j);
    match parse_input_records(b, p1, le16_at(b, 0) as nat) {
        Ok((pins, p2)) => {
            lemma_parse_input_records_bounds(b, p1, le16_at(b, 0) as nat, pins, p2);
            lemma_parse_input_records_prefix(b, p1, le16_at(b, 0) as nat, pins, p2, j);
            let p3 = p2 + 2;
            lemma_read_u16_prefix(b, p2, j);
            match parse_input_records(b, p3, le16_at(b, p2) as nat) {
                Ok((sws, p4)) => {
                    lemma_parse_input_records_bounds(b, p3, le16_at(b, p2) as nat, sws, p4);
                    lemma_parse_input_records_prefix(b, p3, le16_at(b, p2) as nat, sws, p4, j);
                    let p5 = p4 + 4;
                    lemma_read_u32_prefix(b, p4, j);
                    match spec_read_u32(b, p4) {
                        Ok((n_cells, _)) => {
                            match parse_cells(b, p5, n_cells as nat) {
                                Ok((cells, end)) => {
                                    lemma_parse_cells_bounds(b, p5, n_cells as nat, cells, end);
                                    lemma_parse_cells_prefix(b, p5, n_cells as nat, cells, end, j);
                                },
                                Err(_) => {},
                            }
                        },
                        Err(_) => {},
                    }
                },
                Err(_) => {},
            }
        },
        Err(_) => {},
    }
}

} // verus!


